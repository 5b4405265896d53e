//! Forward error correction: parity packets made from the data packets of a
//! frame, and the data packets back from any of them, as many as there were data
//! packets.

use vstd::prelude::*;
use vstd::seq_lib::seq_to_set_is_finite;
use vstd::set_lib::lemma_len_subset;
use vstd::slice::slice_to_vec;

use crate::error::{ErrorView, FluxError};
use crate::text::{decimal, push_decimal};
use crate::transport::gf::{
    element, lemma_one, lemma_product_element, lemma_sum_element, product, proper_width,
};
use crate::transport::group::{
    agrees, column, empty_slots, explains, group_length, holds, law_group_is_determined,
    lemma_lost, lemma_points, lemma_received_push, lemma_spares, lemma_weight_element, lists, lost,
    parity_seen, plain_position, plain_source, points_fit, rebuild, received_contents, repairable,
    repaired, single, slot, spare_slots, spares, symbol_width, used, weighing, weight, weight_of,
    weighted_sum, width_for,
};
use crate::transport::symbols::{
    add_scaled, column_count, column_width, column_widths, columns, covered, factor_at,
    lemma_column, lemma_covered, lemma_no_symbol, lemma_same_symbol, lemma_spread_symbol,
    lemma_symbol_element, lemma_symbol_sum, padded_byte, spread, spread_symbols, symbol_at,
};

verus! {

/// Makes parity packets from a group of data packets.
pub struct FecEncoder {
    /// Share of the data packets that is made as parity, in percent.
    fec_percentage: u8,
}

/// Puts the data packets of a group back in order.
pub struct FecDecoder {
    data_count: usize,
    parity_count: usize,
}

/// The bytes of each packet of a group.
pub open spec fn contents(packets: Seq<Vec<u8>>) -> Seq<Seq<u8>> {
    Seq::new(packets.len(), |i: int| packets[i]@)
}

/// The exclusive or of one position over all packets.
pub open spec fn xor_at(packets: Seq<Seq<u8>>, position: int) -> u8
    decreases packets.len(),
{
    if packets.len() == 0 {
        0
    } else {
        xor_at(packets.drop_last(), position) ^ padded_byte(packets.last(), position)
    }
}

/// The length of the longest packet.
pub open spec fn longest(packets: Seq<Seq<u8>>) -> nat
    decreases packets.len(),
{
    if packets.len() == 0 {
        0
    } else {
        let rest = longest(packets.drop_last());
        if packets.last().len() > rest {
            packets.last().len()
        } else {
            rest
        }
    }
}

/// The first parity packet of a group: as long as its longest packet, each byte the
/// exclusive or of the bytes at that position.
pub open spec fn parity_packet(packets: Seq<Seq<u8>>) -> Seq<u8> {
    Seq::new(longest(packets), |i: int| xor_at(packets, i))
}

/// The number of parity packets for a group at a percentage: that share,
/// rounded up, and never none.
pub open spec fn parity_quota(data_packet_count: nat, percentage: nat) -> nat {
    let share = (data_packet_count * percentage + 99) / 100;
    if share < 1 {
        1
    } else {
        share
    }
}

/// The symbols of a parity packet after the first: in every column a weighted sum of
/// the data symbols.
pub open spec fn parity_symbols(packets: Seq<Seq<u8>>, parity_count: nat, parity: int) -> Seq<u64> {
    let width = width_for(packets.len() + parity_count);
    let length = longest(packets);
    Seq::new(
        columns(length, width),
        |c: int|
            weighted_sum(
                column_width(length, width, c),
                packets.len(),
                parity,
                column(packets, c * width, column_width(length, width, c)),
            ),
    )
}

/// Whether the parity packets of a group differ. Single bytes do so only in groups with
/// as many packets as there are symbols of one byte for them.
pub open spec fn coded(packets: Seq<Seq<u8>>, parity_count: nat) -> bool {
    longest(packets) != 1 || width_for(packets.len() + parity_count) == 1
}

/// A parity packet of a group with a number of them. It is as long as the longest packet.
/// Only in a group of more than 65537 packets it is longer, to hold whole symbols and a
/// byte that tells by how much.
pub open spec fn parity_shard(packets: Seq<Seq<u8>>, parity_count: nat, parity: int) -> Seq<u8> {
    let width = width_for(packets.len() + parity_count);
    let length = longest(packets);
    let symbols = parity_symbols(packets, parity_count, parity);
    if parity == 0 || !coded(packets, parity_count) {
        parity_packet(packets)
    } else if width <= 2 {
        spread(symbols, length, width)
    } else {
        spread(symbols, length, width).push((covered(length, width) - length) as u8)
    }
}

/// The parity packets of a group; a group without a single byte has none.
pub open spec fn parity_packets(packets: Seq<Seq<u8>>, percentage: nat) -> Seq<Seq<u8>> {
    let quota = parity_quota(packets.len(), percentage);
    if longest(packets) == 0 {
        Seq::empty()
    } else {
        Seq::new(quota, |j: int| parity_shard(packets, quota, j))
    }
}

/// Whether a packet came for a slot.
pub open spec fn arrived(received: Seq<(usize, Seq<u8>)>, index: int) -> bool {
    exists|k: int| 0 <= k < received.len() && (#[trigger] received[k]).0 == index
}

/// Whether the slots below `count` are all filled.
pub open spec fn filled(received: Seq<(usize, Seq<u8>)>, count: int) -> bool {
    forall|i: int| 0 <= i < count ==> (#[trigger] slot(received, i)) is Some
}

/// The message for more losses than there is parity.
pub open spec fn too_many_lost(missing: nat, parity_count: nat) -> Seq<char> {
    "too many lost packets: "@ + decimal(missing) + " missing but only "@ + decimal(parity_count)
        + " parity available"@
}

/// The message for an empty data slot.
pub open spec fn missing_data_packet(index: nat) -> Seq<char> {
    "missing data packet "@ + decimal(index)
}

/// What a reception gives of a group of data packets: an error's text, or the data
/// packets in order. Of several packets for one index the last one counts.
pub open spec fn decoded(
    received: Seq<(usize, Seq<u8>)>,
    data_count: nat,
    parity_count: nat,
) -> Result<Seq<Seq<u8>>, Seq<char>> {
    let gone = lost(received, data_count as int);
    if received.len() < data_count {
        Err(too_many_lost((data_count + parity_count - received.len()) as nat, parity_count))
    } else if gone.len() == 0 {
        Ok(Seq::new(data_count, |i: int| slot(received, i)->0))
    } else if repairable(received, data_count, parity_count) {
        Ok(repaired(received, data_count, parity_count))
    } else {
        Err(missing_data_packet(gone[0] as nat))
    }
}

proof fn lemma_contents_push(packets: Seq<Vec<u8>>, upto: int)
    requires
        0 <= upto < packets.len(),
    ensures
        contents(packets.take(upto + 1)).drop_last() == contents(packets.take(upto)),
        contents(packets.take(upto + 1)).last() == packets[upto]@,
{
    assert(contents(packets.take(upto + 1)).drop_last() =~= contents(packets.take(upto)));
}

proof fn lemma_longest_bounds(packets: Seq<Seq<u8>>, i: int)
    requires
        0 <= i < packets.len(),
    ensures
        packets[i].len() <= longest(packets),
    decreases packets.len(),
{
    if i < packets.len() - 1 {
        lemma_longest_bounds(packets.drop_last(), i);
    }
}

/// A group has no more parity packets than data packets.
pub proof fn lemma_quota(data_packet_count: nat, percentage: nat)
    requires
        percentage <= 100,
    ensures
        data_packet_count > 0 ==> parity_quota(data_packet_count, percentage) <= data_packet_count,
{
    assert(data_packet_count * percentage <= data_packet_count * 100) by (nonlinear_arith)
        requires
            percentage <= 100,
    ;
}

impl FecEncoder {
    /// The share of the data packets that is made as parity, in percent.
    pub closed spec fn percentage(self) -> nat {
        self.fec_percentage as nat
    }

    /// The share is at most all of them.
    #[verifier::type_invariant]
    spec fn at_most_all(self) -> bool {
        self.fec_percentage <= 100
    }

    /// An encoder for a percentage; more than a hundred counts as a hundred.
    pub fn new(fec_percentage: u8) -> (encoder: Self)
        ensures
            encoder.percentage() == if fec_percentage < 100 { fec_percentage as nat } else { 100 },
    {
        Self { fec_percentage: if fec_percentage < 100 { fec_percentage } else { 100 } }
    }

    /// The number of parity packets for a number of data packets.
    pub fn parity_count(&self, data_packet_count: usize) -> (count: usize)
        requires
            data_packet_count * self.percentage() + 99 <= usize::MAX,
        ensures
            count == parity_quota(data_packet_count as nat, self.percentage()),
            self.percentage() <= 100,
            data_packet_count > 0 ==> count <= data_packet_count,
    {
        proof {
            use_type_invariant(self);
            lemma_quota(data_packet_count as nat, self.percentage());
        }
        let count: usize = (data_packet_count * self.fec_percentage as usize + 99) / 100;
        if count < 1 {
            1
        } else {
            count
        }
    }

    /// The parity packets of a group of data packets, shorter ones counting as
    /// filled up with zeros. The first holds the exclusive or of all packets, and
    /// each further one another sum, so that every parity packet makes up for one
    /// lost data packet. Packets of a single byte leave no room for that in a group of
    /// more than 257 packets: there all parity packets are the same.
    pub fn encode(&self, data_packets: &[Vec<u8>]) -> (result: Result<Vec<Vec<u8>>, FluxError>)
        requires
            data_packets@.len() * self.percentage() + 99 <= usize::MAX,
            data_packets@.len() + parity_quota(data_packets@.len(), self.percentage()) <= usize::MAX,
        ensures
            result matches Ok(parity) && contents(parity@) == parity_packets(
                contents(data_packets@),
                self.percentage(),
            ),
    {
        if data_packets.len() == 0 {
            let none: Vec<Vec<u8>> = Vec::new();
            assert(contents(none@) =~= parity_packets(contents(data_packets@), self.percentage()));
            return Ok(none);
        }
        let parity_count: usize = self.parity_count(data_packets.len());
        let mut packet_size: usize = 0;
        for i in 0..data_packets.len()
            invariant
                packet_size == longest(contents(data_packets@.take(i as int))),
        {
            proof {
                lemma_contents_push(data_packets@, i as int);
            }
            if data_packets[i].len() > packet_size {
                packet_size = data_packets[i].len();
            }
        }
        assert(data_packets@.take(data_packets@.len() as int) =~= data_packets@);
        if packet_size == 0 {
            let none: Vec<Vec<u8>> = Vec::new();
            assert(contents(none@) =~= parity_packets(contents(data_packets@), self.percentage()));
            return Ok(none);
        }
        let mut parity: Vec<u8> = vec![0u8; packet_size];
        for i in 0..data_packets.len()
            invariant
                parity@.len() == packet_size,
                packet_size == longest(contents(data_packets@)),
                forall|j: int|
                    0 <= j < packet_size ==> #[trigger] parity@[j] == xor_at(
                        contents(data_packets@.take(i as int)),
                        j,
                    ),
        {
            let packet: &Vec<u8> = &data_packets[i];
            let ghost before = parity@;
            proof {
                lemma_contents_push(data_packets@, i as int);
                lemma_longest_bounds(contents(data_packets@), i as int);
                assert(contents(data_packets@)[i as int] == packet@);
            }
            for k in 0..packet.len()
                invariant
                    parity@.len() == packet_size,
                    before.len() == packet_size,
                    packet@.len() <= packet_size,
                    forall|j: int|
                        0 <= j < packet_size ==> #[trigger] parity@[j] == if j < k {
                            before[j] ^ packet@[j]
                        } else {
                            before[j]
                        },
            {
                parity[k] = parity[k] ^ packet[k];
            }
            assert forall|j: int| 0 <= j < packet_size implies #[trigger] parity@[j] == xor_at(
                contents(data_packets@.take(i + 1)),
                j,
            ) by {
                let b = before[j];
                assert(b ^ 0u8 == b) by (bit_vector);
            }
        }
        assert(data_packets@.take(data_packets@.len() as int) =~= data_packets@);
        assert(parity@ =~= parity_packet(contents(data_packets@)));
        let mut packets: Vec<Vec<u8>> = Vec::new();
        packets.push(slice_to_vec(parity.as_slice()));
        let different: bool = packet_size != 1 || symbol_width(data_packets.len(), parity_count) == 1;
        for j in 1..parity_count
            invariant
                parity_count == parity_quota(data_packets@.len(), self.percentage()),
                data_packets@.len() + parity_count <= usize::MAX,
                packet_size == longest(contents(data_packets@)),
                parity@ == parity_packet(contents(data_packets@)),
                different == coded(contents(data_packets@), parity_count as nat),
                packets@.len() == j,
                forall|k: int|
                    0 <= k < j ==> (#[trigger] packets@[k])@ == parity_shard(
                        contents(data_packets@),
                        parity_count as nat,
                        k,
                    ),
        {
            if different {
                packets.push(further_parity(data_packets, packet_size, parity_count, j));
            } else {
                packets.push(slice_to_vec(parity.as_slice()));
            }
        }
        assert(contents(packets@) =~= parity_packets(contents(data_packets@), self.percentage()));
        Ok(packets)
    }
}

impl FecDecoder {
    /// The number of data packets in a group.
    pub closed spec fn data_packets(self) -> nat {
        self.data_count as nat
    }

    /// The number of parity packets in a group.
    pub closed spec fn parity_packets(self) -> nat {
        self.parity_count as nat
    }

    /// A decoder for groups of a given make-up.
    pub fn new(data_count: usize, parity_count: usize) -> (decoder: Self)
        ensures
            decoder.data_packets() == data_count,
            decoder.parity_packets() == parity_count,
    {
        Self { data_count, parity_count }
    }

    /// The data packets of a group in order, from the packets that came with
    /// their indices. Lost data packets are rebuilt from as many parity packets.
    pub fn decode(&self, received: &[(usize, Vec<u8>)]) -> (result: Result<
        Vec<Vec<u8>>,
        FluxError,
    >)
        requires
            self.data_packets() + self.parity_packets() <= usize::MAX,
            received@.len() <= self.data_packets() + self.parity_packets(),
        ensures
            match decoded(
                received_contents(received@),
                self.data_packets(),
                self.parity_packets(),
            ) {
                Ok(packets) => result matches Ok(data) && contents(data@) == packets,
                Err(text) => result matches Err(e) && e@ == ErrorView::Network(text),
            },
    {
        let total_shards: usize = self.data_count + self.parity_count;
        let missing_count: usize = total_shards - received.len();
        let ghost packets = received_contents(received@);
        let ghost n = self.data_packets();
        let ghost p = self.parity_packets();
        if missing_count > self.parity_count {
            let mut text = String::new();
            text.append("too many lost packets: ");
            push_decimal(&mut text, missing_count as u64);
            text.append(" missing but only ");
            push_decimal(&mut text, self.parity_count as u64);
            text.append(" parity available");
            assert(text@ =~= too_many_lost(missing_count as nat, self.parity_packets()));
            return Err(FluxError::Network(text));
        }
        let mut data: Vec<Option<Vec<u8>>> = self.fill_slots(received);
        let empty: Vec<usize> = empty_slots(&data, Ghost(packets));
        proof {
            lemma_lost(packets, n as int);
        }
        if empty.len() > 0 {
            let spare: Vec<usize> = spare_slots(received, self.data_count, self.parity_count);
            let (plain, alike): (Option<usize>, bool) = plain_position(
                received,
                self.data_count,
                self.parity_count,
                &spare,
            );
            let sources: Vec<usize> = if alike {
                Vec::new()
            } else {
                spare
            };
            let needed_count: usize = if plain.is_some() {
                empty.len() - 1
            } else {
                empty.len()
            };
            if sources.len() < needed_count {
                let mut text = String::new();
                text.append("missing data packet ");
                push_decimal(&mut text, empty[0] as u64);
                assert(text@ =~= missing_data_packet(lost(packets, n as int)[0] as nat));
                return Err(FluxError::Network(text));
            }
            let rebuilt: Vec<Vec<u8>> = rebuild(
                received,
                &data,
                &empty,
                plain,
                &sources,
                self.parity_count,
            );
            let ordered: Vec<Vec<u8>> = merged(&data, &empty, &rebuilt, Ghost(packets));
            assert forall|i: int| 0 <= i < n implies contents(ordered@)[i] == #[trigger] repaired(
                packets,
                n,
                p,
            )[i] by {
                if slot(packets, i) is None {
                    let gone = lost(packets, n as int);
                    assert(gone.contains(i));
                    let k = choose|k: int| 0 <= k < gone.len() && gone[k] == i;
                    assert(empty@[k] == i);
                    assert(rebuilt@[k]@ == repaired(packets, n, p)[empty@[k] as int]);
                }
            }
            assert(contents(ordered@) =~= repaired(packets, n, p));
            return Ok(ordered);
        }
        let rebuilt: Vec<Vec<u8>> = Vec::new();
        let ordered: Vec<Vec<u8>> = merged(&data, &empty, &rebuilt, Ghost(packets));
        assert(contents(ordered@) =~= Seq::new(n, |i: int| slot(packets, i)->0));
        Ok(ordered)
    }

    /// The data packets that came, each in its slot.
    fn fill_slots(&self, received: &[(usize, Vec<u8>)]) -> (data: Vec<Option<Vec<u8>>>)
        ensures
            data@.len() == self.data_packets(),
            holds(data@, received_contents(received@)),
    {
        let mut data: Vec<Option<Vec<u8>>> = Vec::new();
        for i in 0..self.data_count
            invariant
                data@.len() == i,
                forall|j: int| 0 <= j < i ==> (#[trigger] data@[j]) is None,
        {
            data.push(None);
        }
        assert(received@.take(0) =~= Seq::empty());
        for k in 0..received.len()
            invariant
                data@.len() == self.data_count,
                holds(data@, received_contents(received@.take(k as int))),
        {
            proof {
                lemma_received_push(received@, k as int);
            }
            let index: usize = received[k].0;
            if index < self.data_count {
                let copy: Vec<u8> = slice_to_vec(received[k].1.as_slice());
                data.set(index, Some(copy));
            }
        }
        assert(received@.take(received@.len() as int) =~= received@);
        data
    }
}

/// A parity packet after the first.
fn further_parity(
    data_packets: &[Vec<u8>],
    packet_size: usize,
    parity_count: usize,
    parity: usize,
) -> (packet: Vec<u8>)
    requires
        data_packets@.len() + parity_count <= usize::MAX,
        packet_size == longest(contents(data_packets@)),
        coded(contents(data_packets@), parity_count as nat),
        0 < parity < parity_count,
    ensures
        packet@ == parity_shard(contents(data_packets@), parity_count as nat, parity as int),
{
    let ghost all = contents(data_packets@);
    let ghost n = all.len();
    let width: usize = symbol_width(data_packets.len(), parity_count);
    let ghost (l, w) = (packet_size as nat, width as nat);
    let count: usize = column_count(packet_size, width);
    let mut row: Vec<u64> = vec![0u64; count];
    for i in 0..data_packets.len()
        invariant
            all == contents(data_packets@),
            n == all.len(),
            n + parity_count <= usize::MAX,
            0 < parity < parity_count,
            w == width,
            l == packet_size,
            column_widths(w),
            count == columns(l, w),
            row@.len() == count,
            forall|c: int|
                0 <= c < count ==> #[trigger] row@[c] == weighted_sum(
                    column_width(l, w, c),
                    n,
                    parity as int,
                    column(all, c * width, column_width(l, w, c)).take(i as int),
                ),
    {
        let ghost before = row@;
        let factor: u64 = weight_of(width, data_packets.len(), parity, i);
        let wide_factor: u64 = if width == 2 && packet_size % 2 == 1 {
            weight_of(3, data_packets.len(), parity, i)
        } else {
            0
        };
        add_scaled(&mut row, factor, wide_factor, &data_packets[i], packet_size, width);
        assert forall|c: int| 0 <= c < count implies #[trigger] row@[c] == weighted_sum(
            column_width(l, w, c),
            n,
            parity as int,
            column(all, c * width, column_width(l, w, c)).take(i + 1),
        ) by {
            let own = column_width(l, w, c);
            let symbols = column(all, c * width, own);
            assert(symbols.take(i + 1).drop_last() =~= symbols.take(i as int));
            assert(symbols.take(i + 1).last() == symbol_at(data_packets@[i as int]@, c * width, own));
            assert(before[c] == weighted_sum(own, n, parity as int, symbols.take(i as int)));
            assert(factor_at(l, w, c, factor, wide_factor) == weight(
                own,
                n,
                parity as int,
                i as int,
            ));
        }
    }
    proof {
        assert forall|c: int| 0 <= c < count implies row@[c] == weighted_sum(
            column_width(l, w, c),
            n,
            parity as int,
            column(all, c * width, column_width(l, w, c)),
        ) by {
            let symbols = column(all, c * width, column_width(l, w, c));
            assert(symbols.take(n as int) =~= symbols);
        }
        assert(row@ =~= parity_symbols(all, parity_count as nat, parity as int));
        lemma_covered(l, w);
    }
    let mut packet: Vec<u8> = spread_symbols(&row, packet_size, width);
    if width > 2 {
        let beyond: u8 = (packet.len() - packet_size) as u8;
        packet.push(beyond);
    }
    packet
}

/// The packets in slots, the empty slots filled with the rebuilt packets.
fn merged(
    data: &Vec<Option<Vec<u8>>>,
    empty: &Vec<usize>,
    rebuilt: &Vec<Vec<u8>>,
    Ghost(received): Ghost<Seq<(usize, Seq<u8>)>>,
) -> (ordered: Vec<Vec<u8>>)
    requires
        holds(data@, received),
        lists(empty@, lost(received, data@.len() as int)),
        rebuilt@.len() == empty@.len(),
    ensures
        ordered@.len() == data@.len(),
        forall|i: int|
            0 <= i < data@.len() && (#[trigger] slot(received, i)) is Some ==> ordered@[i]@ == slot(
                received,
                i,
            )->0,
        forall|k: int| 0 <= k < empty@.len() ==> ordered@[#[trigger] empty@[k] as int]@ == rebuilt@[k]@,
{
    let ghost n = data@.len() as int;
    let ghost gone = lost(received, n);
    proof {
        lemma_lost(received, n);
    }
    let mut ordered: Vec<Vec<u8>> = Vec::new();
    let mut next: usize = 0;
    for i in 0..data.len()
        invariant
            n == data@.len(),
            holds(data@, received),
            gone == lost(received, n),
            lists(empty@, gone),
            rebuilt@.len() == empty@.len(),
            ordered@.len() == i,
            next <= empty@.len(),
            forall|j: int|
                0 <= j < i && (#[trigger] slot(received, j)) is Some ==> ordered@[j]@ == slot(
                    received,
                    j,
                )->0,
            forall|k: int| 0 <= k < next ==> (#[trigger] empty@[k]) < i,
            forall|k: int| next <= k < empty@.len() ==> i <= #[trigger] empty@[k],
            forall|k: int| 0 <= k < next ==> ordered@[#[trigger] empty@[k] as int]@ == rebuilt@[k]@,
    {
        proof {
            lemma_lost(received, n);
        }
        match &data[i] {
            Some(packet) => {
                assert(data@[i as int] is Some);
                assert forall|k: int| next <= k < empty@.len() implies i + 1 <= #[trigger] empty@[k] by {
                    assert(slot(received, gone[k]) is None);
                }
                ordered.push(slice_to_vec(packet.as_slice()));
            },
            None => {
                proof {
                    assert(data@[i as int] is None);
                    assert(gone.contains(i as int));
                    let k = choose|k: int| 0 <= k < gone.len() && gone[k] == i;
                    assert(empty@[k] == i);
                    assert(k >= next);
                    if k > next {
                        assert(gone[next as int] < gone[k]);
                        assert(i <= empty@[next as int]);
                    }
                    assert forall|m: int| next + 1 <= m < empty@.len() implies i + 1
                        <= #[trigger] empty@[m] by {
                        assert(gone[next as int] < gone[m]);
                    }
                }
                ordered.push(slice_to_vec(rebuilt[next].as_slice()));
                next = next + 1;
            },
        }
    }
    ordered
}

/// A lost data packet is the exclusive or of the parity packet and all the
/// other data packets, position by position.
pub proof fn law_parity_recovers_one_packet(packets: Seq<Seq<u8>>, lost: int, position: int)
    requires
        0 <= lost < packets.len(),
        0 <= position < longest(packets),
    ensures
        padded_byte(packets[lost], position) == parity_packet(packets)[position] ^ xor_at(
            packets.remove(lost),
            position,
        ),
{
    lemma_xor_split(packets, lost, position);
    let rest = xor_at(packets.remove(lost), position);
    let own = padded_byte(packets[lost], position);
    assert(own == (rest ^ own) ^ rest) by (bit_vector);
}

proof fn lemma_xor_split(packets: Seq<Seq<u8>>, lost: int, position: int)
    requires
        0 <= lost < packets.len(),
    ensures
        xor_at(packets, position) == xor_at(packets.remove(lost), position) ^ padded_byte(
            packets[lost],
            position,
        ),
    decreases packets.len(),
{
    if lost == packets.len() - 1 {
        assert(packets.remove(lost) =~= packets.drop_last());
    } else {
        lemma_xor_split(packets.drop_last(), lost, position);
        assert(packets.remove(lost).drop_last() =~= packets.drop_last().remove(lost));
        let rest = xor_at(packets.drop_last().remove(lost), position);
        let own = padded_byte(packets[lost], position);
        let last = padded_byte(packets.last(), position);
        assert((rest ^ own) ^ last == (rest ^ last) ^ own) by (bit_vector);
    }
}

/// A group that arrives whole is put in order whatever order its packets come
/// in: where every packet came from its slot of the group and every data slot
/// came, slot by slot the reception holds the data packets.
pub proof fn law_whole_group_is_ordered(
    shards: Seq<Seq<u8>>,
    received: Seq<(usize, Seq<u8>)>,
    data_count: int,
)
    requires
        0 <= data_count <= shards.len(),
        came_from(received, shards),
        forall|i: int| 0 <= i < data_count ==> #[trigger] arrived(received, i),
    ensures
        filled(received, data_count),
        Seq::new(data_count as nat, |i: int| slot(received, i)->0) == shards.take(data_count),
{
    assert forall|i: int| 0 <= i < data_count implies (#[trigger] slot(received, i)) == Some(
        shards[i],
    ) by {
        assert(arrived(received, i));
        lemma_arrived(received, i);
        lemma_slot(received, shards, i);
    }
    assert(Seq::new(data_count as nat, |i: int| slot(received, i)->0) =~= shards.take(data_count));
}

/// The packets of a group: the data packets, then the parity packets.
pub open spec fn shards(packets: Seq<Seq<u8>>, percentage: nat) -> Seq<Seq<u8>> {
    packets + parity_packets(packets, percentage)
}

/// Whether every packet of a reception is a packet of a group under its index.
pub open spec fn came_from(received: Seq<(usize, Seq<u8>)>, group: Seq<Seq<u8>>) -> bool {
    forall|k: int|
        0 <= k < received.len() ==> (#[trigger] received[k]).0 < group.len() && received[k].1
            == group[received[k].0 as int]
}

/// The indices for which packets came.
pub open spec fn indices(received: Seq<(usize, Seq<u8>)>) -> Set<int> {
    Seq::new(received.len(), |k: int| received[k].0 as int).to_set()
}

/// Whether all packets have a length.
pub open spec fn equally_long(packets: Seq<Seq<u8>>, length: nat) -> bool {
    forall|i: int| 0 <= i < packets.len() ==> (#[trigger] packets[i]).len() == length
}

/// A packet filled up with zeros, or cut off, to a length.
pub open spec fn filled_up(packet: Seq<u8>, length: nat) -> Seq<u8> {
    Seq::new(length, |q: int| padded_byte(packet, q))
}

/// What a reception holds for a slot is the packet of the group.
proof fn lemma_slot(received: Seq<(usize, Seq<u8>)>, group: Seq<Seq<u8>>, index: int)
    requires
        came_from(received, group),
    ensures
        slot(received, index) is Some ==> 0 <= index < group.len() && slot(received, index)
            == Some(group[index]),
    decreases received.len(),
{
    if received.len() > 0 {
        let front = received.drop_last();
        assert forall|k: int| 0 <= k < front.len() implies (#[trigger] front[k]).0 < group.len()
            && front[k].1 == group[front[k].0 as int] by {
            assert(front[k] == received[k]);
        }
        lemma_slot(front, group, index);
        assert(received.last() == received[received.len() - 1]);
    }
}

/// A slot is filled exactly where a packet came for it.
proof fn lemma_arrived(received: Seq<(usize, Seq<u8>)>, index: int)
    ensures
        (slot(received, index) is Some) == arrived(received, index),
    decreases received.len(),
{
    if received.len() > 0 {
        let front = received.drop_last();
        lemma_arrived(front, index);
        if arrived(front, index) {
            let k = choose|k: int| 0 <= k < front.len() && (#[trigger] front[k]).0 == index;
            assert(received[k].0 == index);
        }
        if arrived(received, index) && received.last().0 != index {
            let k = choose|k: int| 0 <= k < received.len() && (#[trigger] received[k]).0 == index;
            assert(front[k].0 == index);
        }
        assert(received.last() == received[received.len() - 1]);
    }
}

/// The data slots that are filled.
spec fn kept(received: Seq<(usize, Seq<u8>)>, count: int) -> Seq<int>
    decreases count,
{
    if count <= 0 {
        Seq::empty()
    } else if slot(received, count - 1) is Some {
        kept(received, count - 1).push(count - 1)
    } else {
        kept(received, count - 1)
    }
}

proof fn lemma_kept(received: Seq<(usize, Seq<u8>)>, count: int)
    requires
        0 <= count,
    ensures
        kept(received, count).len() + lost(received, count).len() == count,
        forall|i: int|
            0 <= i < count && (#[trigger] slot(received, i)) is Some ==> kept(
                received,
                count,
            ).contains(i),
    decreases count,
{
    if count > 0 {
        lemma_kept(received, count - 1);
        let (rest, whole) = (kept(received, count - 1), kept(received, count));
        assert forall|i: int| 0 <= i < count && (#[trigger] slot(received, i)) is Some implies whole.contains(
            i,
        ) by {
            if i < count - 1 {
                let k = choose|k: int| 0 <= k < rest.len() && rest[k] == i;
                assert(whole[k] == i);
            } else {
                assert(whole[whole.len() - 1] == i);
            }
        }
    }
}

/// With as many indices as data packets, the parity packets make up for the losses.
/// Parity packets that are all the same make up for one.
proof fn lemma_enough(received: Seq<(usize, Seq<u8>)>, data_count: nat, parity_count: nat)
    requires
        forall|k: int|
            0 <= k < received.len() ==> (#[trigger] received[k]).0 < data_count + parity_count,
        indices(received).len() >= data_count,
        !single(received, data_count, parity_count) || lost(received, data_count as int).len() <= 1,
    ensures
        lost(received, data_count as int).len() == 0 || repairable(
            received,
            data_count,
            parity_count,
        ),
        received.len() >= data_count,
{
    let n = data_count as int;
    let first = parity_count > 0 && slot(received, n) is Some;
    let plain = if first {
        seq![n]
    } else {
        Seq::<int>::empty()
    };
    let spare = spares(received, data_count, parity_count);
    let own = kept(received, n);
    let all = own + spare + plain;
    lemma_kept(received, n);
    lemma_spares(received, data_count, parity_count);
    let came = Seq::new(received.len(), |k: int| received[k].0 as int);
    assert(came.to_set().subset_of(all.to_set())) by {
        assert forall|i: int| came.to_set().contains(i) implies all.to_set().contains(i) by {
            let k = choose|k: int| 0 <= k < came.len() && came[k] == i;
            assert(received[k].0 == i);
            lemma_arrived(received, i);
            assert(arrived(received, i));
            if i < n {
                assert(own.contains(i));
                let j = choose|j: int| 0 <= j < own.len() && own[j] == i;
                assert(all[j] == i);
            } else if i == n {
                assert(all[(own.len() + spare.len()) as int] == i);
            } else {
                assert(spare.contains(i));
                let j = choose|j: int| 0 <= j < spare.len() && spare[j] == i;
                assert(all[own.len() + j] == i);
            }
        }
    }
    seq_to_set_is_finite(all);
    lemma_len_subset(came.to_set(), all.to_set());
    all.lemma_cardinality_of_set();
    came.lemma_cardinality_of_set();
    assert(lost(received, n).len() <= spare.len() + plain.len());
    assert(first ==> plain_source(received, data_count, parity_count) == Some(n));
}

proof fn lemma_xor_beyond(packets: Seq<Seq<u8>>, position: int)
    requires
        position >= longest(packets),
    ensures
        xor_at(packets, position) == 0,
    decreases packets.len(),
{
    if packets.len() > 0 {
        lemma_xor_beyond(packets.drop_last(), position);
        assert(0u8 ^ 0u8 == 0u8) by (bit_vector);
    }
}

/// The symbol of the exclusive or of packets is the plain sum of their symbols.
proof fn lemma_plain_parity(
    packets: Seq<Seq<u8>>,
    parity: Seq<u8>,
    data_count: nat,
    start: int,
    width: nat,
)
    requires
        proper_width(width),
        0 <= start,
        forall|k: int|
            start <= k < start + width ==> #[trigger] padded_byte(parity, k) == xor_at(packets, k),
    ensures
        symbol_at(parity, start, width) == weighted_sum(
            width,
            data_count,
            0,
            column(packets, start, width),
        ),
    decreases packets.len(),
{
    if packets.len() == 0 {
        lemma_same_symbol(parity, Seq::empty(), start, width);
        lemma_no_symbol(Seq::empty(), start, width);
    } else {
        let front = packets.drop_last();
        let rest = Seq::new((start + width) as nat, |k: int| xor_at(front, k));
        lemma_plain_parity(front, rest, data_count, start, width);
        lemma_symbol_sum(rest, packets.last(), parity, start, width);
        let symbols = column(packets, start, width);
        assert(symbols.drop_last() =~= column(front, start, width));
        lemma_symbol_element(packets.last(), start, width);
        lemma_one(width, symbols.last());
    }
}

proof fn lemma_weighted_element(
    width: nat,
    data_count: nat,
    parity_count: nat,
    parity: int,
    symbols: Seq<u64>,
)
    requires
        points_fit(width, data_count, parity_count),
        0 <= parity < parity_count,
        symbols.len() <= data_count,
        forall|i: int| 0 <= i < symbols.len() ==> element(width, #[trigger] symbols[i]),
    ensures
        element(width, weighted_sum(width, data_count, parity, symbols)),
    decreases symbols.len(),
{
    if symbols.len() > 0 {
        let i = symbols.len() - 1;
        lemma_weighted_element(width, data_count, parity_count, parity, symbols.drop_last());
        lemma_weight_element(width, data_count, parity_count, parity, i);
        let w = weight(width, data_count, parity, i);
        lemma_product_element(width, w, symbols[i]);
        lemma_sum_element(
            width,
            weighted_sum(width, data_count, parity, symbols.drop_last()),
            product(width, w, symbols[i]),
        );
    }
}

/// The lengths of a group's parity packets.
pub proof fn law_parity_lengths(packets: Seq<Seq<u8>>, percentage: nat, parity: int)
    requires
        0 <= parity < parity_packets(packets, percentage).len(),
    ensures
        packets.len() + parity_quota(packets.len(), percentage) <= 0x1_0001 ==> parity_packets(
            packets,
            percentage,
        )[parity].len() == longest(packets),
        longest(packets) <= parity_packets(packets, percentage)[parity].len() <= longest(packets) + 8,
{
    let width = width_for(packets.len() + parity_quota(packets.len(), percentage));
    lemma_covered(longest(packets), width);
}

/// What the parity packets of a group that came tell of it.
proof fn lemma_seen(packets: Seq<Seq<u8>>, percentage: nat, received: Seq<(usize, Seq<u8>)>)
    requires
        came_from(received, shards(packets, percentage)),
    ensures
        ({
            let n = packets.len();
            let p = parity_quota(n, percentage);
            &&& single(received, n, p) ==> !coded(packets, p)
            &&& !coded(packets, p) && parity_seen(received, n, p) is Some ==> single(received, n, p)
            &&& plain_source(received, n, p) matches Some(source) ==> slot(received, source) == Some(
                parity_packet(packets),
            )
        }),
{
    let n = packets.len();
    let p = parity_quota(n, percentage);
    let all = shards(packets, percentage);
    let seen = parity_seen(received, n, p);
    lemma_spares(received, n, p);
    if seen is Some {
        lemma_slot(received, all, seen->0);
        law_parity_lengths(packets, percentage, seen->0 - n);
        assert(all[seen->0] == parity_shard(packets, p, seen->0 - n));
    }
}

/// The lost packets of a group come back, filled up with zeros to the length of the
/// longest.
proof fn lemma_repaired(packets: Seq<Seq<u8>>, percentage: nat, received: Seq<(usize, Seq<u8>)>)
    requires
        packets.len() + parity_quota(packets.len(), percentage) <= usize::MAX,
        came_from(received, shards(packets, percentage)),
        repairable(received, packets.len(), parity_quota(packets.len(), percentage)),
    ensures
        ({
            let n = packets.len();
            let p = parity_quota(n, percentage);
            &&& forall|i: int|
                0 <= i < n && (#[trigger] slot(received, i)) is Some ==> repaired(received, n, p)[i]
                    == packets[i]
            &&& forall|i: int|
                0 <= i < n && (#[trigger] slot(received, i)) is None ==> repaired(received, n, p)[i]
                    == filled_up(packets[i], longest(packets))
        }),
{
    let n = packets.len();
    let p = parity_quota(n, percentage);
    let all = shards(packets, percentage);
    let width = width_for(n + p);
    let size = longest(packets);
    let sources = used(received, n, p);
    lemma_points(width, received, n, p);
    lemma_lost(received, n as int);
    lemma_seen(packets, percentage, received);
    lemma_covered(size, width);
    // a parity packet after the first that is used
    assert forall|k: int| 0 <= k < sources.len() implies coded(packets, p) && n
        < #[trigger] sources[k] < n + p && slot(received, sources[k]) == Some(
        parity_shard(packets, p, sources[k] - n),
    ) by {
        lemma_slot(received, all, sources[k]);
        lemma_spares(received, n, p);
        assert(sources[k] == weighing(received, n, p)[k]);
        assert(spares(received, n, p).len() > 0);
        assert(parity_seen(received, n, p) is Some);
    }
    // the length of the group's packets
    assert(group_length(received, n, p) == size) by {
        if sources.len() > 0 {
            let packet = slot(received, sources[0])->0;
            assert(packet == parity_shard(packets, p, sources[0] - n));
            lemma_slot(received, all, sources[0]);
            assert(size > 0);
            if width > 2 {
                assert(packet.last() == covered(size, width) - size);
            }
        }
    }
    // the group itself explains what came
    let group = Seq::new(n, |i: int| filled_up(packets[i], covered(size, width)));
    assert forall|c: int| 0 <= c < columns(size, width) implies agrees(
        #[trigger] column(group, c * width, column_width(size, width, c)),
        received,
        n,
        p,
        c * width,
        column_width(size, width, c),
    ) by {
        let start = c * width;
        let own = column_width(size, width, c);
        lemma_column(size, width, c);
        let symbols = column(packets, start, own);
        assert forall|i: int| 0 <= i < n implies column(group, start, own)[i] == symbols[i] by {
            lemma_same_symbol(group[i], packets[i], start, own);
        }
        assert(column(group, start, own) =~= symbols);
        assert forall|i: int| 0 <= i < n && (#[trigger] slot(received, i)) is Some implies symbols[i]
            == symbol_at(slot(received, i)->0, start, own) by {
            lemma_slot(received, all, i);
        }
        if plain_source(received, n, p) is Some {
            let parity = parity_packet(packets);
            assert forall|k: int| start <= k < start + own implies #[trigger] padded_byte(parity, k)
                == xor_at(packets, k) by {
                if k >= size {
                    lemma_xor_beyond(packets, k);
                }
            }
            lemma_plain_parity(packets, parity, n, start, own);
        }
        assert forall|k: int| 0 <= k < sources.len() implies weighted_sum(
            own,
            n,
            (#[trigger] sources[k]) - n,
            symbols,
        ) == symbol_at(slot(received, sources[k])->0, start, own) by {
            let parity = sources[k] - n;
            assert(n < sources[k] < n + p);
            let row = parity_symbols(packets, p, parity);
            let packet = slot(received, sources[k])->0;
            assert(packet == parity_shard(packets, p, parity));
            assert forall|i: int| 0 <= i < symbols.len() implies element(own, #[trigger] symbols[i]) by {
                lemma_symbol_element(packets[i], start, own);
            }
            lemma_weighted_element(own, n, p, parity, symbols);
            assert(row[c] == weighted_sum(own, n, parity, symbols));
            lemma_spread_symbol(row, size, width, c);
            lemma_same_symbol(packet, spread(row, size, width), start, own);
        }
    }
    assert(explains(group, received, n, p));
    let chosen = choose|g: Seq<Seq<u8>>| explains(g, received, n, p);
    law_group_is_determined(group, chosen, received, n, p);
    assert forall|i: int| 0 <= i < n && (#[trigger] slot(received, i)) is Some implies repaired(
        received,
        n,
        p,
    )[i] == packets[i] by {
        lemma_slot(received, all, i);
    }
    assert forall|i: int| 0 <= i < n && (#[trigger] slot(received, i)) is None implies repaired(
        received,
        n,
        p,
    )[i] == filled_up(packets[i], size) by {
        assert(group[i].take(size as int) =~= filled_up(packets[i], size));
    }
}

/// Any packets of a group, data or parity, give the data packets back in order, as soon
/// as there are as many different ones as data packets. Data packets that came are as
/// they were, and those that were lost come back filled up with zeros to the length of
/// the longest. Parity packets that are all the same make up for one lost packet.
pub proof fn law_uneven_losses_are_rebuilt(
    packets: Seq<Seq<u8>>,
    percentage: nat,
    received: Seq<(usize, Seq<u8>)>,
)
    requires
        packets.len() + parity_quota(packets.len(), percentage) <= usize::MAX,
        came_from(received, shards(packets, percentage)),
        indices(received).len() >= packets.len(),
        coded(packets, parity_quota(packets.len(), percentage)) || lost(
            received,
            packets.len() as int,
        ).len() <= 1,
    ensures
        decoded(received, packets.len(), parity_quota(packets.len(), percentage)) == Ok::<
            Seq<Seq<u8>>,
            Seq<char>,
        >(
            Seq::new(
                packets.len(),
                |i: int|
                    if slot(received, i) is Some {
                        packets[i]
                    } else {
                        filled_up(packets[i], longest(packets))
                    },
            ),
        ),
{
    let n = packets.len();
    let p = parity_quota(n, percentage);
    let all = shards(packets, percentage);
    lemma_seen(packets, percentage, received);
    lemma_enough(received, n, p);
    lemma_lost(received, n as int);
    let expected = Seq::new(
        n,
        |i: int|
            if slot(received, i) is Some {
                packets[i]
            } else {
                filled_up(packets[i], longest(packets))
            },
    );
    if lost(received, n as int).len() == 0 {
        let whole = Seq::new(n, |i: int| slot(received, i)->0);
        assert forall|i: int| 0 <= i < n implies whole[i] == expected[i] by {
            if slot(received, i) is None {
                assert(lost(received, n as int).contains(i));
            }
            lemma_slot(received, all, i);
        }
        assert(whole =~= expected);
    } else {
        lemma_repaired(packets, percentage, received);
        let whole = repaired(received, n, p);
        assert forall|i: int| 0 <= i < n implies whole[i] == expected[i] by {
            if slot(received, i) is None {
            }
        }
        assert(whole =~= expected);
    }
}

/// The same of equally long data packets: they all come back as they were.
pub proof fn law_losses_are_rebuilt(
    packets: Seq<Seq<u8>>,
    length: nat,
    percentage: nat,
    received: Seq<(usize, Seq<u8>)>,
)
    requires
        packets.len() + parity_quota(packets.len(), percentage) <= usize::MAX,
        equally_long(packets, length),
        came_from(received, shards(packets, percentage)),
        indices(received).len() >= packets.len(),
        coded(packets, parity_quota(packets.len(), percentage)) || lost(
            received,
            packets.len() as int,
        ).len() <= 1,
    ensures
        decoded(received, packets.len(), parity_quota(packets.len(), percentage)) == Ok::<
            Seq<Seq<u8>>,
            Seq<char>,
        >(packets),
{
    law_uneven_losses_are_rebuilt(packets, percentage, received);
    lemma_equal_length(packets, length);
    let whole = Seq::new(
        packets.len(),
        |i: int|
            if slot(received, i) is Some {
                packets[i]
            } else {
                filled_up(packets[i], longest(packets))
            },
    );
    assert forall|i: int| 0 <= i < packets.len() implies whole[i] == packets[i] by {
        assert(filled_up(packets[i], length) =~= packets[i]);
    }
    assert(whole =~= packets);
}

proof fn lemma_equal_length(packets: Seq<Seq<u8>>, length: nat)
    requires
        equally_long(packets, length),
    ensures
        packets.len() > 0 ==> longest(packets) == length,
    decreases packets.len(),
{
    if packets.len() > 0 {
        assert(packets.last() == packets[packets.len() - 1]);
        let front = packets.drop_last();
        assert forall|i: int| 0 <= i < front.len() implies (#[trigger] front[i]).len() == length by {
            assert(front[i] == packets[i]);
        }
        lemma_equal_length(front, length);
        assert(front.len() == 0 ==> longest(front) == 0);
    }
}

/// Packets are seen as their bytes, in their order.
pub proof fn law_packets_are_seen(packets: Seq<Vec<u8>>, i: int)
    requires
        0 <= i < packets.len(),
    ensures
        contents(packets).len() == packets.len(),
        contents(packets)[i] == packets[i]@,
{
}

/// The number of parity packets is the least that has the share of the data packets,
/// and at least one.
pub proof fn law_parity_has_its_share(data_packet_count: nat, percentage: nat)
    ensures
        ({
            let count = parity_quota(data_packet_count, percentage);
            &&& count >= 1
            &&& 100 * count >= data_packet_count * percentage
            &&& count > 1 ==> 100 * (count - 1) < data_packet_count * percentage
        }),
{
    assert(0 <= data_packet_count * percentage) by (nonlinear_arith);
}

/// No packet is longer than the longest, and one is as long.
pub proof fn law_longest_packet(packets: Seq<Seq<u8>>)
    ensures
        forall|i: int| 0 <= i < packets.len() ==> (#[trigger] packets[i]).len() <= longest(packets),
        packets.len() == 0 ==> longest(packets) == 0,
        packets.len() > 0 ==> exists|i: int|
            0 <= i < packets.len() && (#[trigger] packets[i]).len() == longest(packets),
    decreases packets.len(),
{
    if packets.len() > 0 {
        let front = packets.drop_last();
        law_longest_packet(front);
        assert forall|i: int| 0 <= i < packets.len() implies (#[trigger] packets[i]).len()
            <= longest(packets) by {
            if i < front.len() {
                assert(front[i] == packets[i]);
            }
        }
        if packets.last().len() > longest(front) || front.len() == 0 {
            assert(packets[packets.len() - 1].len() == longest(packets));
        } else {
            let i = choose|i: int|
                0 <= i < front.len() && (#[trigger] front[i]).len() == longest(front);
            assert(packets[i].len() == longest(packets));
        }
    }
}

/// There are as many parity packets as the share asks for, none for packets without
/// bytes. In the first, each byte of one more packet is added to what was there by an
/// exclusive or; where there is nothing, that is zero.
pub proof fn law_first_parity_packet_is_the_exclusive_or(
    packets: Seq<Seq<u8>>,
    more: Seq<u8>,
    percentage: nat,
    q: int,
)
    requires
        more.len() > 0,
        0 <= q < longest(packets.push(more)),
    ensures
        parity_packets(packets.push(more), percentage).len() == parity_quota(
            packets.len() + 1,
            percentage,
        ),
        longest(packets) == 0 ==> parity_packets(packets, percentage).len() == 0,
        parity_packets(packets.push(more), percentage)[0].len() == longest(packets.push(more)),
        parity_packets(packets.push(more), percentage)[0][q] == (if q < longest(packets) {
            parity_packets(packets, percentage)[0][q]
        } else {
            0
        }) ^ (if q < more.len() {
            more[q]
        } else {
            0
        }),
{
    let all = packets.push(more);
    assert(all.drop_last() =~= packets);
    law_longest_packet(all);
    assert(all[packets.len() as int] == more);
    assert(longest(all) > 0);
    if q >= longest(packets) {
        lemma_xor_beyond(packets, q);
    }
    assert(parity_packets(all, percentage)[0] == parity_packet(all));
    if longest(packets) > 0 {
        assert(parity_packets(packets, percentage)[0] == parity_packet(packets));
    }
}

/// The parity packets of a group differ in what they tell, unless the group has more
/// than 257 packets and they have a single byte.
pub proof fn law_groups_are_coded(packets: Seq<Seq<u8>>, parity_count: nat)
    ensures
        coded(packets, parity_count) <==> longest(packets) != 1 || packets.len() + parity_count
            <= 257,
{
}

/// As many packets of a group as it has data packets, whichever they are and in
/// whatever order they come, bring all data packets back; one that did not come may
/// have zeros behind it.
pub proof fn law_enough_packets_bring_all_back(
    packets: Seq<Seq<u8>>,
    percentage: nat,
    received: Seq<(usize, Seq<u8>)>,
)
    requires
        packets.len() + parity_packets(packets, percentage).len() <= usize::MAX,
        exists|i: int| 0 <= i < packets.len() && (#[trigger] packets[i]).len() > 0,
        packets.len() + parity_packets(packets, percentage).len() <= 257 || exists|i: int|
            0 <= i < packets.len() && (#[trigger] packets[i]).len() > 1,
        forall|k: int|
            #![trigger received[k]]
            0 <= k < received.len() ==> received[k].0 < packets.len() + parity_packets(
                packets,
                percentage,
            ).len() && received[k].1 == if received[k].0 < packets.len() {
                packets[received[k].0 as int]
            } else {
                parity_packets(packets, percentage)[received[k].0 - packets.len()]
            },
        Seq::new(received.len(), |k: int| received[k].0 as int).to_set().len() >= packets.len(),
    ensures
        ({
            let result = decoded(
                received,
                packets.len(),
                parity_packets(packets, percentage).len(),
            );
            &&& result matches Ok(all)
            &&& all.len() == packets.len()
            &&& forall|i: int|
                0 <= i < packets.len() ==> (#[trigger] packets[i]).len() <= all[i].len()
            &&& forall|i: int, q: int|
                0 <= i < packets.len() && 0 <= q < all[i].len() ==> #[trigger] all[i][q] == if q
                    < packets[i].len() {
                    packets[i][q]
                } else {
                    0
                }
            &&& (forall|i: int|
                0 <= i < packets.len() ==> (#[trigger] packets[i]).len() == packets[0].len())
                ==> all == packets
        }),
{
    let quota = parity_quota(packets.len(), percentage);
    law_longest_packet(packets);
    let long = choose|i: int| 0 <= i < packets.len() && (#[trigger] packets[i]).len() > 0;
    assert(packets[long].len() <= longest(packets));
    assert(parity_packets(packets, percentage).len() == quota);
    if !(packets.len() + quota <= 257) {
        let longer = choose|i: int| 0 <= i < packets.len() && (#[trigger] packets[i]).len() > 1;
        assert(packets[longer].len() <= longest(packets));
    }
    law_groups_are_coded(packets, quota);
    let group = shards(packets, percentage);
    assert forall|k: int| 0 <= k < received.len() implies (#[trigger] received[k]).0 < group.len()
        && received[k].1 == group[received[k].0 as int] by {
        let packet = received[k];
    }
    assert(came_from(received, group));
    law_uneven_losses_are_rebuilt(packets, percentage, received);
    let all = Seq::new(
        packets.len(),
        |i: int|
            if slot(received, i) is Some {
                packets[i]
            } else {
                filled_up(packets[i], longest(packets))
            },
    );
    assert(decoded(received, packets.len(), quota) == Ok::<Seq<Seq<u8>>, Seq<char>>(all));
    assert forall|i: int| 0 <= i < packets.len() implies (#[trigger] packets[i]).len()
        <= all[i].len() by {
        assert(packets[i].len() <= longest(packets));
    }
    assert forall|i: int, q: int| 0 <= i < packets.len() && 0 <= q < all[i].len() implies (
    #[trigger] all[i][q]) == if q < packets[i].len() {
        packets[i][q]
    } else {
        0
    } by {
        assert(slot(received, i) is Some ==> all[i] == packets[i]);
    }
    if forall|i: int| 0 <= i < packets.len() ==> (#[trigger] packets[i]).len() == packets[0].len() {
        let longest_at = choose|i: int|
            0 <= i < packets.len() && (#[trigger] packets[i]).len() == longest(packets);
        assert(packets[longest_at].len() == packets[0].len());
        assert forall|i: int| 0 <= i < packets.len() implies all[i] =~= packets[i] by {
            assert(packets[i].len() == packets[0].len());
        }
        assert(all =~= packets);
    }
}

/// Data packets that all came are given back as they came, the last of each slot.
pub proof fn law_complete_data_is_given_back(
    received: Seq<(usize, Seq<u8>)>,
    data_count: nat,
    parity_count: nat,
)
    requires
        received.len() >= data_count,
        forall|i: int| 0 <= i < data_count ==> (#[trigger] slot(received, i)) is Some,
    ensures
        decoded(received, data_count, parity_count) matches Ok(all) && all.len() == data_count && (
        forall|i: int| 0 <= i < data_count ==> Some(#[trigger] all[i]) == slot(received, i)),
{
    lemma_lost(received, data_count as int);
    let gone = lost(received, data_count as int);
    if gone.len() > 0 {
        assert(slot(received, gone[0]) is None);
    }
}

/// Fewer packets than there are data packets are too few, and the error says how many
/// are missing.
pub proof fn law_too_few_packets_are_refused(
    received: Seq<(usize, Seq<u8>)>,
    data_count: nat,
    parity_count: nat,
)
    requires
        received.len() < data_count,
    ensures
        decoded(received, data_count, parity_count) == Err::<Seq<Seq<u8>>, Seq<char>>(
            "too many lost packets: "@ + decimal(
                (data_count + parity_count - received.len()) as nat,
            ) + " missing but only "@ + decimal(parity_count) + " parity available"@,
        ),
{
}

proof fn lemma_kept_rises(received: Seq<(usize, Seq<u8>)>, count: int)
    requires
        0 <= count,
    ensures
        forall|k: int|
            0 <= k < kept(received, count).len() ==> 0 <= #[trigger] kept(received, count)[k]
                < count && slot(received, kept(received, count)[k]) is Some,
        kept(received, count).no_duplicates(),
    decreases count,
{
    if count > 0 {
        lemma_kept_rises(received, count - 1);
    }
}

/// Where too few different packets of a group came, the first data packet that did
/// not come is told.
pub proof fn law_the_first_missing_packet_is_told(
    received: Seq<(usize, Seq<u8>)>,
    data_count: nat,
    parity_count: nat,
    first: int,
)
    requires
        received.len() >= data_count,
        Seq::new(received.len(), |k: int| received[k].0 as int).to_set().len() < data_count,
        0 <= first < data_count,
        slot(received, first) is None,
        forall|i: int| 0 <= i < first ==> (#[trigger] slot(received, i)) is Some,
    ensures
        decoded(received, data_count, parity_count) == Err::<Seq<Seq<u8>>, Seq<char>>(
            "missing data packet "@ + decimal(first as nat),
        ),
{
    let n = data_count as int;
    let gone = lost(received, n);
    lemma_lost(received, n);
    assert(gone.contains(first));
    let at = choose|at: int| 0 <= at < gone.len() && gone[at] == first;
    if at > 0 {
        assert(gone[0] < gone[at]);
        assert(slot(received, gone[0]) is None);
    }
    assert(gone[0] == first);
    if repairable(received, data_count, parity_count) {
        let own = kept(received, n);
        let spare = weighing(received, data_count, parity_count);
        let plain = plain_source(received, data_count, parity_count);
        let extra = if plain is Some {
            seq![plain->0]
        } else {
            Seq::<int>::empty()
        };
        let all = own + spare + extra;
        let came = Seq::new(received.len(), |k: int| received[k].0 as int);
        lemma_kept(received, n);
        lemma_kept_rises(received, n);
        lemma_spares(received, data_count, parity_count);
        assert(all.len() >= n);
        assert forall|j: int, k: int| 0 <= j < k < all.len() implies all[j] != all[k] by {
        }
        assert(all.no_duplicates());
        assert forall|i: int| all.to_set().contains(i) implies came.to_set().contains(i) by {
            let j = choose|j: int| 0 <= j < all.len() && all[j] == i;
            assert(slot(received, i) is Some);
            lemma_arrived(received, i);
            let k = choose|k: int| 0 <= k < received.len() && (#[trigger] received[k]).0 == i;
            assert(came[k] == i);
        }
        seq_to_set_is_finite(came);
        lemma_len_subset(all.to_set(), came.to_set());
        all.unique_seq_to_set();
    }
}

} // verus!
