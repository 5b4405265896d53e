//! Reassembly of frames from the packets that arrive for them.

use vstd::prelude::*;
use vstd::slice::{slice_subrange, slice_to_vec};

use crate::transport::fec::{parity_packets, parity_quota};
use crate::transport::packetizer::{
    chunk, chunk_count, chunks, frame_packets, lemma_chunk_count, lemma_chunk_start, low16,
    repair_packet, FrameParameters,
};
use crate::transport::rtp::payload_types;
use crate::transport::rtp::{
    extension_bytes, header_bytes, law_extension_round_trip, law_header_round_trip, parsed_extension,
    parsed_header, FluxVideoExtension, RtpHeader,
};

verus! {

/// Reassembles frames from received packets, one frame at a time.
pub struct Depacketizer {
    current_frame: Option<FrameAssembly>,
}

struct FrameAssembly {
    frame_number: u32,
    total_data_packets: u16,
    is_idr: bool,
    received_packets: Vec<Option<Vec<u8>>>,
    received_count: usize,
}

/// A frame put together from its packets.
#[derive(Debug, Clone)]
pub struct ReassembledFrame {
    pub frame_number: u32,
    pub is_idr: bool,
    pub data: Vec<u8>,
}

/// A frame under assembly: its slots hold the payloads that came.
#[verifier::ext_equal]
pub struct Assembly {
    pub frame_number: u32,
    pub is_idr: bool,
    pub slots: Seq<Option<Seq<u8>>>,
}

/// A finished frame.
#[verifier::ext_equal]
pub struct FrameView {
    pub frame_number: u32,
    pub is_idr: bool,
    pub data: Seq<u8>,
}

impl View for ReassembledFrame {
    type V = FrameView;

    open spec fn view(&self) -> FrameView {
        FrameView { frame_number: self.frame_number, is_idr: self.is_idr, data: self.data@ }
    }
}

/// The payloads in the slots, with empty slots left out, one after the other.
pub open spec fn joined(slots: Seq<Option<Seq<u8>>>) -> Seq<u8>
    decreases slots.len(),
{
    if slots.len() == 0 {
        Seq::empty()
    } else {
        joined(slots.drop_last()) + match slots.last() {
            Some(payload) => payload,
            None => Seq::empty(),
        }
    }
}

/// Whether no slot is empty.
pub open spec fn complete(slots: Seq<Option<Seq<u8>>>) -> bool {
    forall|i: int| 0 <= i < slots.len() ==> (#[trigger] slots[i]) is Some
}

/// The number of slots that hold a payload.
pub open spec fn occupied(slots: Seq<Option<Seq<u8>>>) -> nat
    decreases slots.len(),
{
    if slots.len() == 0 {
        0
    } else {
        occupied(slots.drop_last()) + if slots.last() is Some {
            1nat
        } else {
            0
        }
    }
}

/// The assembly that a packet adds to: the current one, or a fresh one where
/// the packet belongs to another frame.
pub open spec fn joined_assembly(current: Option<Assembly>, extension: FluxVideoExtension) -> Assembly {
    if current is Some && current->0.frame_number == extension.frame_number {
        current->0
    } else {
        Assembly {
            frame_number: extension.frame_number,
            is_idr: extension.is_idr,
            slots: Seq::new(extension.total_data_packets as nat, |i: int| None::<Seq<u8>>),
        }
    }
}

/// An assembly after a payload came for a slot. A slot keeps the first payload
/// that came for it, and an index beyond the slots changes nothing.
pub open spec fn with_payload(assembly: Assembly, index: int, payload: Seq<u8>) -> Assembly {
    if index < assembly.slots.len() && assembly.slots[index] is None {
        Assembly { slots: assembly.slots.update(index, Some(payload)), ..assembly }
    } else {
        assembly
    }
}

/// What a packet does: the assembly that is left, and the frame that it
/// completes. A packet without valid headers does nothing.
pub open spec fn fed(current: Option<Assembly>, packet: Seq<u8>) -> (Option<Assembly>, Option<FrameView>) {
    let header = parsed_header(packet);
    let extension = parsed_extension(packet.skip(12));
    if packet.len() < 24 || header is None || extension is None {
        (current, None)
    } else {
        let next = with_payload(
            joined_assembly(current, extension->0),
            extension->0.packet_index as int,
            packet.skip(24),
        );
        if complete(next.slots) {
            (
                None,
                Some(
                    FrameView {
                        frame_number: next.frame_number,
                        is_idr: next.is_idr,
                        data: joined(next.slots),
                    },
                ),
            )
        } else {
            (Some(next), None)
        }
    }
}

/// Whether a frame under assembly, if there is one, lacks a packet.
pub open spec fn unfinished(current: Option<Assembly>) -> bool {
    current matches Some(assembly) ==> !complete(assembly.slots)
}

/// Whether a packet brings nothing for the frame under assembly: its headers are not
/// valid, or it belongs to the frame and its index is beyond the slots or came before.
pub open spec fn brings_nothing(current: Option<Assembly>, packet: Seq<u8>) -> bool {
    let extension = parsed_extension(packet.skip(12));
    packet.len() < 24 || parsed_header(packet) is None || extension is None || (current matches Some(
        assembly,
    ) && assembly.frame_number == extension->0.frame_number && (extension->0.packet_index
        >= assembly.slots.len() || assembly.slots[extension->0.packet_index as int] is Some))
}

/// A packet that brings nothing for the frame under assembly leaves it as it was, and
/// completes no frame.
pub proof fn law_repeated_packets_change_nothing(current: Option<Assembly>, packet: Seq<u8>)
    requires
        unfinished(current),
        brings_nothing(current, packet),
    ensures
        fed(current, packet) == (current, None::<FrameView>),
{
}

spec fn slot_views(slots: Seq<Option<Vec<u8>>>) -> Seq<Option<Seq<u8>>> {
    Seq::new(
        slots.len(),
        |i: int|
            match slots[i] {
                Some(payload) => Some(payload@),
                None => None,
            },
    )
}

proof fn lemma_occupied(slots: Seq<Option<Seq<u8>>>)
    ensures
        occupied(slots) <= slots.len(),
        occupied(slots) == slots.len() <==> complete(slots),
    decreases slots.len(),
{
    if slots.len() > 0 {
        let front = slots.drop_last();
        lemma_occupied(front);
        if complete(slots) {
            assert forall|i: int| 0 <= i < front.len() implies (#[trigger] front[i]) is Some by {
                assert(slots[i] is Some);
            }
        }
        if occupied(slots) == slots.len() {
            assert forall|i: int| 0 <= i < slots.len() implies (#[trigger] slots[i]) is Some by {
                if i < front.len() {
                    assert(front[i] is Some);
                }
            }
        }
    }
}

proof fn lemma_occupied_update(slots: Seq<Option<Seq<u8>>>, index: int, payload: Seq<u8>)
    requires
        0 <= index < slots.len(),
        slots[index] is None,
    ensures
        occupied(slots.update(index, Some(payload))) == occupied(slots) + 1,
    decreases slots.len(),
{
    let updated = slots.update(index, Some(payload));
    if index == slots.len() - 1 {
        assert(updated.drop_last() =~= slots.drop_last());
    } else {
        assert(updated.drop_last() =~= slots.drop_last().update(index, Some(payload)));
        lemma_occupied_update(slots.drop_last(), index, payload);
    }
}

proof fn lemma_occupied_empty(count: nat)
    ensures
        occupied(Seq::new(count, |i: int| None::<Seq<u8>>)) == 0,
    decreases count,
{
    let slots = Seq::new(count, |i: int| None::<Seq<u8>>);
    if count > 0 {
        lemma_occupied_empty((count - 1) as nat);
        assert(slots.drop_last() =~= Seq::new((count - 1) as nat, |i: int| None::<Seq<u8>>));
    }
}

impl FrameAssembly {
    spec fn assembly(self) -> Assembly {
        Assembly {
            frame_number: self.frame_number,
            is_idr: self.is_idr,
            slots: slot_views(self.received_packets@),
        }
    }

    spec fn well_formed(self) -> bool {
        &&& !complete(slot_views(self.received_packets@))
        &&& self.counts_agree()
    }

    spec fn counts_agree(self) -> bool {
        &&& self.received_packets@.len() == self.total_data_packets
        &&& self.received_count == occupied(slot_views(self.received_packets@))
    }
}

impl Depacketizer {
    /// The frame under assembly, if there is one.
    pub closed spec fn assembly(self) -> Option<Assembly> {
        match self.current_frame {
            Some(frame) => Some(frame.assembly()),
            None => None,
        }
    }

    /// The frame under assembly lacks a packet, and the count of received packets
    /// agrees with the slots that are filled.
    pub closed spec fn well_formed(self) -> bool {
        self.current_frame matches Some(frame) ==> frame.well_formed()
    }

    /// A depacketizer with no frame under assembly.
    pub fn new() -> (depacketizer: Self)
        ensures
            depacketizer.well_formed(),
            depacketizer.assembly() is None,
    {
        Self { current_frame: None }
    }

    /// Takes in a packet, and hands out the frame that it completes.
    pub fn feed(&mut self, packet: &[u8]) -> (frame: Option<ReassembledFrame>)
        requires
            old(self).well_formed(),
        ensures
            final(self).well_formed(),
            unfinished(old(self).assembly()),
            unfinished(final(self).assembly()),
            final(self).assembly() == fed(old(self).assembly(), packet@).0,
            match frame {
                Some(frame) => fed(old(self).assembly(), packet@).1 == Some(frame@),
                None => fed(old(self).assembly(), packet@).1 is None,
            },
    {
        let header_size: usize = RtpHeader::SIZE + FluxVideoExtension::SIZE;
        if packet.len() < header_size {
            return None;
        }
        if RtpHeader::parse(packet).is_none() {
            return None;
        }
        let behind_header: &[u8] = slice_subrange(packet, RtpHeader::SIZE, packet.len());
        assert(behind_header@ =~= packet@.skip(12));
        let extension: FluxVideoExtension = match FluxVideoExtension::parse(behind_header) {
            Some(extension) => extension,
            None => {
                return None;
            },
        };
        let payload: &[u8] = slice_subrange(packet, header_size, packet.len());
        assert(payload@ =~= packet@.skip(24));
        let ghost before = self.assembly();
        let mut current: Option<FrameAssembly> = None;
        std::mem::swap(&mut current, &mut self.current_frame);
        let mut frame: FrameAssembly = match current {
            Some(frame) if frame.frame_number == extension.frame_number => frame,
            _ => Self::fresh(&extension),
        };
        assert(frame.assembly() =~= joined_assembly(before, extension));
        let ghost started = frame.assembly();
        let index: usize = extension.packet_index as usize;
        if index < frame.received_packets.len() && frame.received_packets[index].is_none() {
            proof {
                assert(started.slots[index as int] is None);
                lemma_occupied_update(started.slots, index as int, payload@);
                lemma_occupied(started.slots.update(index as int, Some(payload@)));
            }
            frame.received_packets.set(index, Some(slice_to_vec(payload)));
            frame.received_count = frame.received_count + 1;
            assert(slot_views(frame.received_packets@) =~= started.slots.update(
                index as int,
                Some(payload@),
            ));
        } else {
            assert(index < started.slots.len() ==> started.slots[index as int] is Some);
        }
        assert(frame.assembly() =~= with_payload(started, index as int, payload@));
        proof {
            lemma_occupied(frame.assembly().slots);
        }
        if frame.received_count == frame.total_data_packets as usize {
            let mut data: Vec<u8> = Vec::new();
            let ghost slots = frame.assembly().slots;
            assert(slots.take(0) =~= Seq::empty());
            for i in 0..frame.received_packets.len()
                invariant
                    slots == slot_views(frame.received_packets@),
                    data@ == joined(slots.take(i as int)),
            {
                assert(slots.take(i + 1).drop_last() =~= slots.take(i as int));
                assert(slots.take(i + 1).last() == slots[i as int]);
                if let Some(part) = &frame.received_packets[i] {
                    data.extend_from_slice(part.as_slice());
                    assert(data@ =~= joined(slots.take(i + 1)));
                }
            }
            assert(slots.take(slots.len() as int) =~= slots);
            return Some(
                ReassembledFrame { frame_number: frame.frame_number, is_idr: frame.is_idr, data },
            );
        }
        self.current_frame = Some(frame);
        None
    }

    fn fresh(extension: &FluxVideoExtension) -> (frame: FrameAssembly)
        ensures
            frame.counts_agree(),
            frame.assembly() == joined_assembly(None, *extension),
    {
        let mut received_packets: Vec<Option<Vec<u8>>> = Vec::new();
        for i in 0..extension.total_data_packets
            invariant
                received_packets@.len() == i,
                forall|j: int| 0 <= j < i ==> (#[trigger] received_packets@[j]) is None,
        {
            received_packets.push(None);
        }
        proof {
            lemma_occupied_empty(extension.total_data_packets as nat);
            assert(slot_views(received_packets@) =~= Seq::new(
                extension.total_data_packets as nat,
                |i: int| None::<Seq<u8>>,
            ));
        }
        FrameAssembly {
            frame_number: extension.frame_number,
            total_data_packets: extension.total_data_packets,
            is_idr: extension.is_idr,
            received_packets,
            received_count: 0,
        }
    }
}

/// What a run of packets does: the assembly that is left, and the frames that
/// were completed on the way.
pub open spec fn fed_all(current: Option<Assembly>, packets: Seq<Seq<u8>>) -> (
    Option<Assembly>,
    Seq<FrameView>,
)
    decreases packets.len(),
{
    if packets.len() == 0 {
        (current, Seq::empty())
    } else {
        let before = fed_all(current, packets.drop_last());
        let step = fed(before.0, packets.last());
        (
            step.0,
            match step.1 {
                Some(frame) => before.1.push(frame),
                None => before.1,
            },
        )
    }
}

/// The packets at the given indices, in the given order.
pub open spec fn picked(packets: Seq<Seq<u8>>, order: Seq<int>) -> Seq<Seq<u8>> {
    Seq::new(order.len(), |k: int| packets[order[k]])
}

/// The slots of a frame of which the packets at some indices came.
spec fn slots_for(parts: Seq<Seq<u8>>, order: Seq<int>) -> Seq<Option<Seq<u8>>> {
    Seq::new(
        parts.len(),
        |i: int|
            if order.contains(i) {
                Some(parts[i])
            } else {
                None
            },
    )
}

/// What the headers of a frame's packet tell.
proof fn lemma_packet_headers(header: RtpHeader, extension: FluxVideoExtension, payload: Seq<u8>)
    ensures
        ({
            let packet = header_bytes(header) + extension_bytes(extension) + payload;
            &&& packet.len() >= 24
            &&& parsed_header(packet) is Some
            &&& parsed_extension(packet.skip(12)) == Some(extension)
            &&& packet.skip(24) == payload
        }),
{
    let packet = header_bytes(header) + extension_bytes(extension) + payload;
    law_header_round_trip(header, extension_bytes(extension) + payload);
    law_extension_round_trip(extension, payload);
    assert(packet =~= header_bytes(header) + (extension_bytes(extension) + payload));
    assert(packet.skip(12) =~= extension_bytes(extension) + payload);
    assert(packet.skip(24) =~= payload);
}

/// What the packet at an index among all packets of a frame does: it belongs to
/// the frame, and a data packet carries the chunk of its index, while a parity
/// packet has an index beyond the slots.
proof fn lemma_frame_packet(
    frame: FrameParameters,
    data: Seq<u8>,
    max_packet_size: nat,
    fec_percentage: nat,
    index: int,
)
    requires
        max_packet_size > 24,
        0 <= index < frame_packets(frame, data, max_packet_size, fec_percentage).len() <= 0xffff,
    ensures
        ({
            let parts = chunks(data, (max_packet_size - 24) as nat);
            let packet = frame_packets(frame, data, max_packet_size, fec_percentage)[index];
            let extension = parsed_extension(packet.skip(12));
            &&& packet.len() >= 24
            &&& parsed_header(packet) is Some
            &&& extension is Some
            &&& extension->0.frame_number == frame.frame_number
            &&& extension->0.is_idr == frame.is_keyframe
            &&& extension->0.total_data_packets == parts.len()
            &&& extension->0.packet_index == index
            &&& index < parts.len() ==> packet.skip(24) == parts[index]
        }),
{
    let parts = chunks(data, (max_packet_size - 24) as nat);
    let parity = parity_packets(parts, fec_percentage);
    let fec_count = parity_quota(parts.len(), fec_percentage);
    let extension = FluxVideoExtension {
        frame_number: frame.frame_number,
        total_data_packets: low16(parts.len() as int),
        packet_index: low16(index),
        fec_packet_count: low16(fec_count as int),
        is_idr: frame.is_keyframe,
    };
    if index < parts.len() {
        let header = RtpHeader {
            payload_type: frame.payload_type,
            sequence_number: low16(frame.first_sequence_number + index),
            timestamp: frame.rtp_timestamp,
            ssrc: frame.ssrc,
            marker: index == 0,
        };
        lemma_packet_headers(header, extension, parts[index]);
    } else {
        let at = index - parts.len();
        let header = RtpHeader {
            payload_type: payload_types::FEC,
            sequence_number: low16(frame.first_sequence_number + parts.len() + at),
            timestamp: frame.rtp_timestamp,
            ssrc: frame.ssrc,
            marker: false,
        };
        assert(frame_packets(frame, data, max_packet_size, fec_percentage)[index] == repair_packet(
            frame,
            parts,
            parity,
            fec_count,
            at,
        ));
        lemma_packet_headers(header, extension, parity[at]);
    }
}

proof fn lemma_joined_chunks(data: Seq<u8>, size: nat, slots: Seq<Option<Seq<u8>>>, upto: int)
    requires
        size > 0,
        slots.len() == chunk_count(data.len(), size),
        forall|i: int| 0 <= i < slots.len() ==> #[trigger] slots[i] == Some(chunk(data, size, i)),
        0 <= upto <= slots.len(),
    ensures
        joined(slots.take(upto)) == data.take(
            if upto == slots.len() {
                data.len() as int
            } else {
                upto * size
            },
        ),
    decreases upto,
{
    lemma_chunk_count(data.len(), size);
    if upto == 0 {
        assert(slots.take(0) =~= Seq::empty());
        assert(0 * size == 0);
        assert(joined(slots.take(0)) =~= data.take(0));
    } else {
        lemma_joined_chunks(data, size, slots, upto - 1);
        lemma_chunk_start(data.len(), size, upto - 1);
        assert(slots.take(upto).drop_last() =~= slots.take(upto - 1));
        assert(slots.take(upto).last() == slots[upto - 1]);
        if upto == slots.len() {
            assert(upto * size >= data.len());
        }
        assert(joined(slots.take(upto)) =~= data.take(
            if upto == slots.len() {
                data.len() as int
            } else {
                upto * size
            },
        ));
    }
}

/// Whether an order feeds every data packet of a frame exactly once, the last of
/// them at `at`. Parity packets stand anywhere in it.
pub open spec fn feeds_frame(order: Seq<int>, data_count: int, packet_count: int, at: int) -> bool {
    &&& forall|k: int| 0 <= k < order.len() ==> 0 <= (#[trigger] order[k]) < packet_count
    &&& forall|i: int| 0 <= i < data_count ==> #[trigger] order.contains(i)
    &&& forall|j: int, k: int|
        0 <= j < k < order.len() && #[trigger] order[j] == #[trigger] order[k] ==> order[k]
            >= data_count
    &&& 0 <= at < order.len()
    &&& order[at] < data_count
    &&& forall|k: int| at < k < order.len() ==> (#[trigger] order[k]) >= data_count
}

/// The frame that the packet at a position of a run completes.
pub open spec fn outcome(current: Option<Assembly>, packets: Seq<Seq<u8>>, at: int) -> Option<FrameView> {
    fed(fed_all(current, packets.take(at)).0, packets[at]).1
}

/// The assembly and the frames after some packets of a run that feeds a frame.
spec fn run_state(
    frame: FrameParameters,
    data: Seq<u8>,
    parts: Seq<Seq<u8>>,
    current: Option<Assembly>,
    order: Seq<int>,
    at: int,
    upto: int,
) -> (Option<Assembly>, Seq<FrameView>) {
    let whole = FrameView { frame_number: frame.frame_number, is_idr: frame.is_keyframe, data };
    if upto <= at {
        (
            if upto == 0 {
                current
            } else {
                Some(
                    Assembly {
                        frame_number: frame.frame_number,
                        is_idr: frame.is_keyframe,
                        slots: slots_for(parts, order.take(upto)),
                    },
                )
            },
            Seq::empty(),
        )
    } else {
        (
            if upto == at + 1 {
                None
            } else {
                Some(
                    Assembly {
                        frame_number: frame.frame_number,
                        is_idr: frame.is_keyframe,
                        slots: Seq::new(parts.len(), |i: int| None::<Seq<u8>>),
                    },
                )
            },
            seq![whole],
        )
    }
}

/// The first indices of an order hold those before the last, and the last.
proof fn lemma_taken(order: Seq<int>, upto: int)
    requires
        0 < upto <= order.len(),
    ensures
        forall|i: int|
            #![trigger order.take(upto).contains(i)]
            order.take(upto).contains(i) <==> (order.take(upto - 1).contains(i) || i == order[upto - 1]),
{
    let front = order.take(upto - 1);
    let whole = order.take(upto);
    assert forall|i: int| #[trigger] whole.contains(i) <==> (front.contains(i) || i == order[upto
        - 1]) by {
        if whole.contains(i) {
            let k = choose|k: int| 0 <= k < whole.len() && #[trigger] whole[k] == i;
            if k < upto - 1 {
                assert(front[k] == i);
            }
        }
        if front.contains(i) {
            let k = choose|k: int| 0 <= k < front.len() && #[trigger] front[k] == i;
            assert(whole[k] == i);
        }
        assert(whole[upto - 1] == order[upto - 1]);
    }
}

/// A data packet does not come twice.
proof fn lemma_not_fed_before(order: Seq<int>, data_count: int, packet_count: int, at: int, k: int, upto: int)
    requires
        feeds_frame(order, data_count, packet_count, at),
        0 <= upto <= k < order.len(),
        order[k] < data_count,
    ensures
        !order.take(upto).contains(order[k]),
{
    let front = order.take(upto);
    if front.contains(order[k]) {
        let j = choose|j: int| 0 <= j < front.len() && #[trigger] front[j] == order[k];
        assert(order[j] == order[k]);
    }
}

proof fn lemma_run(
    frame: FrameParameters,
    data: Seq<u8>,
    max_packet_size: nat,
    fec_percentage: nat,
    current: Option<Assembly>,
    order: Seq<int>,
    at: int,
    upto: int,
)
    requires
        max_packet_size > 24,
        data.len() > 0,
        frame_packets(frame, data, max_packet_size, fec_percentage).len() <= 0xffff,
        current is Some ==> current->0.frame_number != frame.frame_number,
        feeds_frame(
            order,
            chunk_count(data.len(), (max_packet_size - 24) as nat) as int,
            frame_packets(frame, data, max_packet_size, fec_percentage).len() as int,
            at,
        ),
        0 <= upto <= order.len(),
    ensures
        ({
            let parts = chunks(data, (max_packet_size - 24) as nat);
            let run = picked(frame_packets(frame, data, max_packet_size, fec_percentage), order);
            &&& fed_all(current, run.take(upto)) == run_state(
                frame,
                data,
                parts,
                current,
                order,
                at,
                upto,
            )
            &&& upto > 0 ==> outcome(current, run, upto - 1) == if upto - 1 == at {
                Some(FrameView { frame_number: frame.frame_number, is_idr: frame.is_keyframe, data })
            } else {
                None
            }
        }),
    decreases upto,
{
    let size = (max_packet_size - 24) as nat;
    let parts = chunks(data, size);
    let all = frame_packets(frame, data, max_packet_size, fec_percentage);
    let run = picked(all, order);
    let n = parts.len() as int;
    lemma_chunk_count(data.len(), size);
    if upto == 0 {
        assert(run.take(0) =~= Seq::empty());
    } else {
        let k = upto - 1;
        let index = order[k];
        lemma_run(frame, data, max_packet_size, fec_percentage, current, order, at, k);
        lemma_frame_packet(frame, data, max_packet_size, fec_percentage, index);
        lemma_taken(order, upto);
        assert(run.take(upto).drop_last() =~= run.take(k));
        assert(run.take(upto).last() == run[k]);
        let before = run_state(frame, data, parts, current, order, at, k);
        let extension = parsed_extension(run[k].skip(12))->0;
        let started = joined_assembly(before.0, extension);
        let next = with_payload(started, extension.packet_index as int, run[k].skip(24));
        if k <= at {
            assert(k == 0 ==> order.take(0) =~= Seq::empty());
            assert(started.slots =~= slots_for(parts, order.take(k)));
            if index < n {
                lemma_not_fed_before(order, n, all.len() as int, at, k, k);
            }
            assert(next.slots =~= slots_for(parts, order.take(upto)));
            if k < at {
                lemma_not_fed_before(order, n, all.len() as int, at, at, upto);
                assert(next.slots[order[at]] is None);
                assert(!complete(next.slots));
            } else {
                assert forall|i: int| 0 <= i < next.slots.len() implies #[trigger] next.slots[i]
                    == Some(chunk(data, size, i)) by {
                    assert(order.contains(i));
                    let j = choose|j: int| 0 <= j < order.len() && #[trigger] order[j] == i;
                    assert(order.take(upto)[j] == i);
                }
                assert(complete(next.slots));
                lemma_joined_chunks(data, size, next.slots, n);
                assert(next.slots.take(n) =~= next.slots);
                assert(data.take(data.len() as int) =~= data);
            }
        } else {
            assert(started.slots =~= Seq::new(parts.len(), |i: int| None::<Seq<u8>>));
            assert(next.slots[0] is None);
            assert(!complete(next.slots));
        }
        assert(fed_all(current, run.take(upto)).1 =~= run_state(
            frame,
            data,
            parts,
            current,
            order,
            at,
            upto,
        ).1);
        assert(fed_all(current, run.take(upto)).0 == run_state(
            frame,
            data,
            parts,
            current,
            order,
            at,
            upto,
        ).0);
    }
}

/// The packets of a frame give the frame back, whatever order they come in: each
/// data packet once, and parity packets anywhere before, between or behind them.
/// Nothing comes out but with the last data packet, and with it the frame as it was
/// split.
pub proof fn law_frame_reassembles(
    frame: FrameParameters,
    data: Seq<u8>,
    max_packet_size: nat,
    fec_percentage: nat,
    current: Option<Assembly>,
    order: Seq<int>,
    at: int,
)
    requires
        max_packet_size > 24,
        data.len() > 0,
        frame_packets(frame, data, max_packet_size, fec_percentage).len() <= 0xffff,
        current is Some ==> current->0.frame_number != frame.frame_number,
        feeds_frame(
            order,
            chunk_count(data.len(), (max_packet_size - 24) as nat) as int,
            frame_packets(frame, data, max_packet_size, fec_percentage).len() as int,
            at,
        ),
    ensures
        ({
            let run = picked(frame_packets(frame, data, max_packet_size, fec_percentage), order);
            let whole = FrameView {
                frame_number: frame.frame_number,
                is_idr: frame.is_keyframe,
                data,
            };
            &&& fed_all(current, run).1 == seq![whole]
            &&& forall|k: int|
                0 <= k < run.len() ==> #[trigger] outcome(current, run, k) == if k == at {
                    Some(whole)
                } else {
                    None
                }
        }),
{
    let run = picked(frame_packets(frame, data, max_packet_size, fec_percentage), order);
    lemma_run(
        frame,
        data,
        max_packet_size,
        fec_percentage,
        current,
        order,
        at,
        order.len() as int,
    );
    assert(run.take(order.len() as int) =~= run);
    assert forall|k: int| 0 <= k < run.len() implies #[trigger] outcome(current, run, k) == if k
        == at {
        Some(FrameView { frame_number: frame.frame_number, is_idr: frame.is_keyframe, data })
    } else {
        None
    } by {
        lemma_run(frame, data, max_packet_size, fec_percentage, current, order, at, k + 1);
    }
}

/// A frame is seen with its own fields.
pub proof fn law_reassembled_frames_are_seen(frame: ReassembledFrame)
    ensures
        frame@.frame_number == frame.frame_number,
        frame@.is_idr == frame.is_idr,
        frame@.data == frame.data@,
{
}

/// The bytes of a frame are its payloads, one behind the other.
pub proof fn law_payloads_are_joined(slots: Seq<Option<Seq<u8>>>, payload: Seq<u8>)
    ensures
        joined(Seq::empty()) == Seq::<u8>::empty(),
        joined(slots.push(Some(payload))) == joined(slots) + payload,
{
    assert(slots.push(Some(payload)).drop_last() =~= slots);
}

/// What is no packet of the stream is passed over.
pub proof fn law_foreign_packets_are_passed_over(current: Option<Assembly>, packet: Seq<u8>)
    requires
        packet.len() < 24 || parsed_header(packet) is None || parsed_extension(packet.skip(12))
            is None,
    ensures
        fed(current, packet) == (current, None::<FrameView>),
{
}

/// The first packet of a frame gives up the frame before. It says how many packets the
/// frame has and whether it is a keyframe, and fills the place of its index; a frame of
/// no other packet is complete with it.
pub proof fn law_new_frames_replace_old_ones(current: Option<Assembly>, packet: Seq<u8>)
    requires
        packet.len() >= 24,
        parsed_header(packet) is Some,
        parsed_extension(packet.skip(12)) is Some,
        current matches Some(old) ==> old.frame_number != parsed_extension(
            packet.skip(12),
        )->0.frame_number,
    ensures
        ({
            let extension = parsed_extension(packet.skip(12))->0;
            let count = extension.total_data_packets as int;
            let index = extension.packet_index as int;
            let (next, frame) = fed(current, packet);
            &&& count == 0 ==> next is None && frame == Some(
                FrameView {
                    frame_number: extension.frame_number,
                    is_idr: extension.is_idr,
                    data: Seq::empty(),
                },
            )
            &&& count == 1 && index == 0 ==> next is None && frame == Some(
                FrameView {
                    frame_number: extension.frame_number,
                    is_idr: extension.is_idr,
                    data: packet.skip(24),
                },
            )
            &&& count > 1 || (count == 1 && index > 0) ==> {
                &&& frame is None
                &&& next matches Some(assembly)
                &&& assembly.frame_number == extension.frame_number
                &&& assembly.is_idr == extension.is_idr
                &&& assembly.slots.len() == count
                &&& forall|i: int|
                    0 <= i < count ==> #[trigger] assembly.slots[i] == if i == index {
                        Some(packet.skip(24))
                    } else {
                        None
                    }
            }
        }),
{
    let extension = parsed_extension(packet.skip(12))->0;
    let count = extension.total_data_packets as int;
    let index = extension.packet_index as int;
    let fresh = joined_assembly(current, extension);
    let filled = with_payload(fresh, index, packet.skip(24));
    if count == 0 {
        assert(filled.slots =~= Seq::empty());
    } else if count == 1 && index == 0 {
        assert(filled.slots =~= Seq::<Option<Seq<u8>>>::empty().push(Some(packet.skip(24))));
        law_payloads_are_joined(Seq::empty(), packet.skip(24));
        assert(joined(filled.slots) =~= packet.skip(24));
    } else {
        let other: int = if index == 0 {
            1
        } else {
            0
        };
        assert(filled.slots[other] is None);
    }
}

/// A further packet of a frame fills the place of its index, if that is empty, and
/// leaves the others as they are. Once no place is empty the frame is given out, under
/// its number, and forgotten.
pub proof fn law_further_packets_fill_their_places(assembly: Assembly, packet: Seq<u8>)
    requires
        packet.len() >= 24,
        parsed_header(packet) is Some,
        parsed_extension(packet.skip(12)) is Some,
        assembly.frame_number == parsed_extension(packet.skip(12))->0.frame_number,
        parsed_extension(packet.skip(12))->0.packet_index < assembly.slots.len(),
        assembly.slots[parsed_extension(packet.skip(12))->0.packet_index as int] is None,
    ensures
        ({
            let index = parsed_extension(packet.skip(12))->0.packet_index as int;
            let slots = Seq::new(
                assembly.slots.len(),
                |i: int|
                    if i == index {
                        Some(packet.skip(24))
                    } else {
                        assembly.slots[i]
                    },
            );
            let (next, frame) = fed(Some(assembly), packet);
            if forall|i: int|
                0 <= i < assembly.slots.len() && i != index ==> (#[trigger] assembly.slots[i])
                    is Some {
                next is None && frame == Some(
                    FrameView {
                        frame_number: assembly.frame_number,
                        is_idr: assembly.is_idr,
                        data: joined(slots),
                    },
                )
            } else {
                frame is None && next == Some(
                    Assembly {
                        frame_number: assembly.frame_number,
                        is_idr: assembly.is_idr,
                        slots,
                    },
                )
            }
        }),
{
    let index = parsed_extension(packet.skip(12))->0.packet_index as int;
    let slots = Seq::new(
        assembly.slots.len(),
        |i: int|
            if i == index {
                Some(packet.skip(24))
            } else {
                assembly.slots[i]
            },
    );
    let filled = with_payload(assembly, index, packet.skip(24));
    assert(filled.slots =~= slots);
    assert(filled == Assembly { slots, ..assembly });
    if forall|i: int|
        0 <= i < assembly.slots.len() && i != index ==> (#[trigger] assembly.slots[i]) is Some {
        assert forall|i: int| 0 <= i < slots.len() implies (#[trigger] slots[i]) is Some by {
            if i != index {
                assert(assembly.slots[i] is Some);
            }
        }
    } else {
        let i = choose|i: int|
            0 <= i < assembly.slots.len() && i != index && !((#[trigger] assembly.slots[i]) is Some);
        assert(slots[i] is None);
    }
}

/// A packet of the frame at hand whose place is taken, or that the frame has no place for,
/// changes nothing as long as another place is empty.
pub proof fn law_taken_places_stay_taken(assembly: Assembly, packet: Seq<u8>, empty: int)
    requires
        packet.len() >= 24,
        parsed_header(packet) is Some,
        parsed_extension(packet.skip(12)) is Some,
        assembly.frame_number == parsed_extension(packet.skip(12))->0.frame_number,
        0 <= empty < assembly.slots.len(),
        assembly.slots[empty] is None,
        ({
            let index = parsed_extension(packet.skip(12))->0.packet_index as int;
            index >= assembly.slots.len() || assembly.slots[index] is Some
        }),
    ensures
        fed(Some(assembly), packet) == (Some(assembly), None::<FrameView>),
        unfinished(Some(assembly)),
        unfinished(None),
{
}

/// A frame is unfinished where one of its places is empty.
pub proof fn law_unfinished_frames(assembly: Assembly)
    ensures
        unfinished(Some(assembly)) <==> exists|i: int|
            0 <= i < assembly.slots.len() && (#[trigger] assembly.slots[i]) is None,
{
}

} // verus!
