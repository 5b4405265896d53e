//! Splitting of encoded frames into packets, and their reassembly.

use vstd::prelude::*;
use vstd::slice::{slice_subrange, slice_to_vec};

use crate::transport::buffer::{buffer_to_vec, buffer_with_capacity, put_slice};
use crate::transport::fec::{
    contents, law_parity_lengths, lemma_quota, longest, parity_packets, parity_quota, FecEncoder,
};
use crate::transport::rtp::payload_types;
use crate::transport::rtp::{
    extension_bytes, header_bytes, law_extension_round_trip, law_header_round_trip,
    parsed_extension, parsed_header, FluxVideoExtension, RtpHeader,
};

verus! {

/// Splits encoded frames into packets.
pub struct Packetizer {
    fec_encoder: FecEncoder,
    ssrc: u32,
}

/// What the packets of one frame have in common.
pub struct FrameParameters {
    pub is_keyframe: bool,
    pub frame_number: u32,
    pub first_sequence_number: u16,
    pub rtp_timestamp: u32,
    pub payload_type: u8,
    pub ssrc: u32,
}

/// The number of chunks that `len` bytes fall into.
pub open spec fn chunk_count(len: nat, size: nat) -> nat {
    (len + size - 1) as nat / size
}

/// The chunk at an index: `size` bytes, or what is left of them in the last one.
pub open spec fn chunk(data: Seq<u8>, size: nat, index: int) -> Seq<u8> {
    let start = index * size;
    data.subrange(
        start,
        if start + size <= data.len() {
            start + size
        } else {
            data.len() as int
        },
    )
}

/// All chunks in order.
pub open spec fn chunks(data: Seq<u8>, size: nat) -> Seq<Seq<u8>> {
    Seq::new(chunk_count(data.len(), size), |i: int| chunk(data, size, i))
}

/// The low sixteen bits of a number.
pub open spec fn low16(n: int) -> u16 {
    (n % 0x1_0000) as u16
}

/// The packet that carries the data chunk at an index. The marker tells the one
/// with the start of the frame.
pub open spec fn data_packet(
    frame: FrameParameters,
    parts: Seq<Seq<u8>>,
    fec_count: nat,
    index: int,
) -> Seq<u8> {
    header_bytes(
        (RtpHeader {
            payload_type: frame.payload_type,
            sequence_number: low16(frame.first_sequence_number + index),
            timestamp: frame.rtp_timestamp,
            ssrc: frame.ssrc,
            marker: index == 0,
        }),
    ) + extension_bytes(
        (FluxVideoExtension {
            frame_number: frame.frame_number,
            total_data_packets: low16(parts.len() as int),
            packet_index: low16(index),
            fec_packet_count: low16(fec_count as int),
            is_idr: frame.is_keyframe,
        }),
    ) + parts[index]
}

/// The packet that carries the parity packet at an index. Its sequence number
/// and packet index go on from those of the data packets.
pub open spec fn repair_packet(
    frame: FrameParameters,
    parts: Seq<Seq<u8>>,
    parity: Seq<Seq<u8>>,
    fec_count: nat,
    index: int,
) -> Seq<u8> {
    header_bytes(
        (RtpHeader {
            payload_type: payload_types::FEC,
            sequence_number: low16(frame.first_sequence_number + parts.len() + index),
            timestamp: frame.rtp_timestamp,
            ssrc: frame.ssrc,
            marker: false,
        }),
    ) + extension_bytes(
        (FluxVideoExtension {
            frame_number: frame.frame_number,
            total_data_packets: low16(parts.len() as int),
            packet_index: low16(low16(parts.len() as int) + index),
            fec_packet_count: low16(fec_count as int),
            is_idr: frame.is_keyframe,
        }),
    ) + parity[index]
}

/// The packets of a frame: one for each chunk, then one for each parity packet.
/// There is none where the packet size leaves no room behind the headers.
pub open spec fn frame_packets(
    frame: FrameParameters,
    data: Seq<u8>,
    max_packet_size: nat,
    fec_percentage: nat,
) -> Seq<Seq<u8>> {
    if max_packet_size <= 24 {
        Seq::empty()
    } else {
        let parts = chunks(data, (max_packet_size - 24) as nat);
        let parity = parity_packets(parts, fec_percentage);
        let fec_count = parity_quota(parts.len(), fec_percentage);
        Seq::new(parts.len(), |i: int| data_packet(frame, parts, fec_count, i)) + Seq::new(
            parity.len(),
            |i: int| repair_packet(frame, parts, parity, fec_count, i),
        )
    }
}

/// How many chunks some bytes fall into, and how they fill them.
pub proof fn lemma_chunk_count(len: nat, size: nat)
    requires
        size > 0,
    ensures
        chunk_count(len, size) <= len,
        len > 0 ==> chunk_count(len, size) >= 1,
        len == 0 ==> chunk_count(len, size) == 0,
        len > 0 ==> (chunk_count(len, size) - 1) * size < len,
        chunk_count(len, size) * size >= len,
{
    let n = chunk_count(len, size);
    assert(n * size <= len + size - 1 && len + size - 1 < n * size + size) by (nonlinear_arith)
        requires
            size > 0,
            n == (len + size - 1) as nat / size,
    ;
    assert((n - 1) * size == n * size - size) by (nonlinear_arith);
    if n > len {
        assert(n * size >= (len + 1) * size && (len + 1) * size >= len + size) by (nonlinear_arith)
            requires
                n >= len + 1,
                size >= 1,
        ;
    }
    if n == 0 {
        assert(n * size == 0) by (nonlinear_arith)
            requires
                n == 0,
        ;
    }
}

/// Where a chunk starts inside the data.
pub proof fn lemma_chunk_start(len: nat, size: nat, index: int)
    requires
        size > 0,
        0 <= index < chunk_count(len, size),
    ensures
        0 <= index * size < len,
        index + 1 < chunk_count(len, size) ==> (index + 1) * size < len,
        (index + 1) * size == index * size + size,
{
    lemma_chunk_count(len, size);
    let n = chunk_count(len, size);
    assert(0 <= index * size && index * size <= (n - 1) * size) by (nonlinear_arith)
        requires
            0 <= index <= n - 1,
            size > 0,
    ;
    if index + 1 < n {
        assert((index + 1) * size <= (n - 1) * size) by (nonlinear_arith)
            requires
                index + 1 <= n - 1,
                size > 0,
        ;
    }
    assert((index + 1) * size == index * size + size) by (nonlinear_arith);
}

/// One packet: the two headers and the payload.
fn assemble_packet(header: RtpHeader, extension: FluxVideoExtension, payload: &[u8]) -> (packet: Vec<
    u8,
>)
    requires
        payload@.len() + 24 <= isize::MAX,
    ensures
        packet@ == header_bytes(header) + extension_bytes(extension) + payload@,
{
    let mut buf = buffer_with_capacity(RtpHeader::SIZE + FluxVideoExtension::SIZE + payload.len());
    header.serialize(&mut buf);
    extension.serialize(&mut buf);
    put_slice(&mut buf, payload);
    let packet = buffer_to_vec(&buf);
    assert(packet@ =~= header_bytes(header) + extension_bytes(extension) + payload@);
    packet
}

impl Packetizer {
    /// The percentage at which parity is made.
    pub closed spec fn percentage(self) -> nat {
        self.fec_encoder.percentage()
    }

    /// The synchronization source of the packets.
    pub closed spec fn source(self) -> u32 {
        self.ssrc
    }

    /// A packetizer for a stream.
    pub fn new(fec_percentage: u8, ssrc: u32) -> (packetizer: Self)
        ensures
            packetizer.percentage() == if fec_percentage < 100 { fec_percentage as nat } else { 100 },
            packetizer.source() == ssrc,
    {
        Self { fec_encoder: FecEncoder::new(fec_percentage), ssrc }
    }

    /// The packets of a frame, ready to be sent. The sequence number advances by
    /// one for each of them.
    #[verifier::rlimit(40)]
    pub fn packetize(
        &self,
        frame_data: &[u8],
        is_keyframe: bool,
        frame_number: u32,
        sequence_number: &mut u16,
        rtp_timestamp: u32,
        max_packet_size: usize,
        payload_type: u8,
    ) -> (packets: Vec<Vec<u8>>)
        requires
            frame_data@.len() + 24 <= isize::MAX,
            max_packet_size > 24 ==> chunk_count(
                frame_data@.len(),
                (max_packet_size - 24) as nat,
            ) * self.percentage() + 99 <= usize::MAX,
        ensures
            contents(packets@) == frame_packets(
                (FrameParameters {
                    is_keyframe,
                    frame_number,
                    first_sequence_number: *old(sequence_number),
                    rtp_timestamp,
                    payload_type,
                    ssrc: self.source(),
                }),
                frame_data@,
                max_packet_size as nat,
                self.percentage(),
            ),
            *final(sequence_number) == low16(*old(sequence_number) + packets@.len()),
    {
        let mut packets: Vec<Vec<u8>> = Vec::new();
        if max_packet_size <= RtpHeader::SIZE + FluxVideoExtension::SIZE {
            assert(contents(packets@) =~= Seq::empty());
            return packets;
        }
        let max_payload: usize = max_packet_size - (RtpHeader::SIZE + FluxVideoExtension::SIZE);
        let ghost frame = FrameParameters {
            is_keyframe,
            frame_number,
            first_sequence_number: *old(sequence_number),
            rtp_timestamp,
            payload_type,
            ssrc: self.source(),
        };
        let ghost size = max_payload as nat;
        let ghost parts = chunks(frame_data@, size);
        let len: usize = frame_data.len();
        proof {
            lemma_chunk_count(len as nat, size);
        }
        let count: usize = if len == 0 {
            0
        } else {
            (len - 1) / max_payload + 1
        };
        proof {
            assert(count == chunk_count(len as nat, size)) by {
                if len > 0 {
                    assert((len + size - 1) / (size as int) == (len - 1) / (size as int) + 1)
                        by (nonlinear_arith)
                        requires
                            size > 0,
                            len > 0,
                    ;
                }
            }
        }
        let fec_count: usize = self.fec_encoder.parity_count(count);
        let total_data_packets: u16 = (count % 0x1_0000) as u16;
        let mut data_payloads: Vec<Vec<u8>> = Vec::new();
        let mut start: usize = 0;
        assert(0 * size == 0);
        for index in 0..count
            invariant
                count == chunk_count(len as nat, size),
                count == parts.len(),
                parts == chunks(frame_data@, size),
                size == max_payload,
                max_payload > 0,
                len == frame_data@.len(),
                len + 24 <= isize::MAX,
                total_data_packets == low16(count as int),
                frame == (FrameParameters {
                    is_keyframe,
                    frame_number,
                    first_sequence_number: *old(sequence_number),
                    rtp_timestamp,
                    payload_type,
                    ssrc: self.source(),
                }),
                fec_count == parity_quota(count as nat, self.percentage()),
                start == if index < count {
                    index * size
                } else {
                    len as int
                },
                *sequence_number == low16(*old(sequence_number) + index),
                packets@.len() == index,
                data_payloads@.len() == index,
                forall|i: int|
                    0 <= i < index ==> (#[trigger] packets@[i])@ == data_packet(
                        frame,
                        parts,
                        fec_count as nat,
                        i,
                    ),
                forall|i: int| 0 <= i < index ==> (#[trigger] data_payloads@[i])@ == parts[i],
        {
            proof {
                lemma_chunk_start(len as nat, size, index as int);
                lemma_chunk_count(len as nat, size);
            }
            let end: usize = if len - start > max_payload {
                start + max_payload
            } else {
                len
            };
            let part: &[u8] = slice_subrange(frame_data, start, end);
            assert(part@ =~= parts[index as int]);
            let header = RtpHeader {
                payload_type,
                sequence_number: *sequence_number,
                timestamp: rtp_timestamp,
                ssrc: self.ssrc,
                marker: index == 0,
            };
            let extension = FluxVideoExtension {
                frame_number,
                total_data_packets,
                packet_index: (index % 0x1_0000) as u16,
                fec_packet_count: (fec_count % 0x1_0000) as u16,
                is_idr: is_keyframe,
            };
            packets.push(assemble_packet(header, extension, part));
            data_payloads.push(slice_to_vec(part));
            *sequence_number = sequence_number.wrapping_add(1);
            start = end;
        }
        assert(contents(data_payloads@) =~= parts);
        let ghost parity_specs = parity_packets(parts, self.percentage());
        if let Ok(parity) = self.fec_encoder.encode(data_payloads.as_slice()) {
            proof {
                assert forall|i: int| 0 <= i < parity_specs.len() implies (
                #[trigger] parity_specs[i]).len() <= len by {
                    lemma_parity_lengths(frame_data@, size, self.percentage(), i);
                }
                assert(parity@.len() == contents(parity@).len());
            }
            self.push_repairs(
                &mut packets,
                &parity,
                sequence_number,
                is_keyframe,
                frame_number,
                rtp_timestamp,
                total_data_packets,
                fec_count,
                Ghost(frame),
                Ghost(parts),
            );
        }
        assert(contents(packets@) =~= frame_packets(
            frame,
            frame_data@,
            max_packet_size as nat,
            self.percentage(),
        ));
        packets
    }

    /// Appends the packets that carry the parity packets of a frame.
    fn push_repairs(
        &self,
        packets: &mut Vec<Vec<u8>>,
        parity: &Vec<Vec<u8>>,
        sequence_number: &mut u16,
        is_keyframe: bool,
        frame_number: u32,
        rtp_timestamp: u32,
        total_data_packets: u16,
        fec_count: usize,
        Ghost(frame): Ghost<FrameParameters>,
        Ghost(parts): Ghost<Seq<Seq<u8>>>,
    )
        requires
            forall|i: int|
                0 <= i < parity@.len() ==> (#[trigger] contents(parity@)[i]).len() + 24 <= isize::MAX,
            total_data_packets == low16(parts.len() as int),
            frame.is_keyframe == is_keyframe,
            frame.frame_number == frame_number,
            frame.rtp_timestamp == rtp_timestamp,
            frame.ssrc == self.source(),
            *old(sequence_number) == low16(frame.first_sequence_number + parts.len()),
        ensures
            final(packets)@.len() == old(packets)@.len() + parity@.len(),
            forall|i: int|
                0 <= i < old(packets)@.len() ==> #[trigger] final(packets)@[i] == old(packets)@[i],
            forall|i: int|
                old(packets)@.len() <= i < final(packets)@.len() ==> (
                #[trigger] final(packets)@[i])@ == repair_packet(
                    frame,
                    parts,
                    contents(parity@),
                    fec_count as nat,
                    i - old(packets)@.len(),
                ),
            *final(sequence_number) == low16(
                frame.first_sequence_number + parts.len() + parity@.len(),
            ),
    {
        let ghost before = packets@;
        for index in 0..parity.len()
            invariant
                forall|i: int|
                    0 <= i < parity@.len() ==> (#[trigger] contents(parity@)[i]).len() + 24
                        <= isize::MAX,
                total_data_packets == low16(parts.len() as int),
                frame.is_keyframe == is_keyframe,
                frame.frame_number == frame_number,
                frame.rtp_timestamp == rtp_timestamp,
                frame.ssrc == self.source(),
                *sequence_number == low16(frame.first_sequence_number + parts.len() + index),
                packets@.len() == before.len() + index,
                forall|i: int| 0 <= i < before.len() ==> #[trigger] packets@[i] == before[i],
                forall|i: int|
                    before.len() <= i < packets@.len() ==> (#[trigger] packets@[i])@ == repair_packet(
                        frame,
                        parts,
                        contents(parity@),
                        fec_count as nat,
                        i - before.len(),
                    ),
        {
            let repair: &Vec<u8> = &parity[index];
            assert(repair@ == contents(parity@)[index as int]);
            let header = RtpHeader {
                payload_type: payload_types::FEC,
                sequence_number: *sequence_number,
                timestamp: rtp_timestamp,
                ssrc: self.ssrc,
                marker: false,
            };
            let extension = FluxVideoExtension {
                frame_number,
                total_data_packets,
                packet_index: ((total_data_packets as u64 + index as u64 % 0x1_0000) % 0x1_0000) as u16,
                fec_packet_count: (fec_count % 0x1_0000) as u16,
                is_idr: is_keyframe,
            };
            assert(extension.packet_index == low16(total_data_packets + index));
            packets.push(assemble_packet(header, extension, repair.as_slice()));
            *sequence_number = sequence_number.wrapping_add(1);
        }
    }
}

/// A parity packet is no longer than the frame.
proof fn lemma_parity_lengths(data: Seq<u8>, size: nat, percentage: nat, index: int)
    requires
        size > 0,
        percentage <= 100,
        0 <= index < parity_packets(chunks(data, size), percentage).len(),
    ensures
        parity_packets(chunks(data, size), percentage)[index].len() <= data.len(),
{
    let parts = chunks(data, size);
    let n = parts.len();
    let p = parity_quota(n, percentage);
    let len = data.len();
    assert forall|i: int| 0 <= i < n implies (#[trigger] parts[i]).len() <= size && parts[i].len()
        <= len by {
        lemma_chunk_start(len, size, i);
    }
    lemma_longest(parts, size);
    lemma_longest(parts, len);
    lemma_chunk_count(len, size);
    assert(n > 0);
    lemma_quota(n, percentage);
    law_parity_lengths(parts, percentage, index);
    if n + p > 0x1_0001 {
        assert((n - 1) * size >= size + 8) by (nonlinear_arith)
            requires
                n >= 128,
                size > 0,
        ;
    }
}

/// The longest of packets up to a length.
proof fn lemma_longest(parts: Seq<Seq<u8>>, len: nat)
    requires
        forall|i: int| 0 <= i < parts.len() ==> (#[trigger] parts[i]).len() <= len,
    ensures
        longest(parts) <= len,
    decreases parts.len(),
{
    if parts.len() > 0 {
        assert forall|i: int| 0 <= i < parts.drop_last().len() implies (
        #[trigger] parts.drop_last()[i]).len() <= len by {
            assert(parts.drop_last()[i] == parts[i]);
        }
        lemma_longest(parts.drop_last(), len);
        assert(parts.last() == parts[parts.len() - 1]);
    }
}

/// No packet of a frame is longer than the packet size. The numbers of a frame's
/// packets have sixteen bits.
pub proof fn law_packets_fit(
    frame: FrameParameters,
    data: Seq<u8>,
    max_packet_size: nat,
    fec_percentage: nat,
    index: int,
)
    requires
        0 <= index < frame_packets(frame, data, max_packet_size, fec_percentage).len(),
        frame_packets(frame, data, max_packet_size, fec_percentage).len() <= 0xffff,
    ensures
        frame_packets(frame, data, max_packet_size, fec_percentage)[index].len() <= max_packet_size,
{
    let size = (max_packet_size - 24) as nat;
    let parts = chunks(data, size);
    let n = parts.len();
    let p = parity_quota(n, fec_percentage);
    let parity = parity_packets(parts, fec_percentage);
    assert forall|i: int| 0 <= i < n implies (#[trigger] parts[i]).len() <= size by {
        lemma_chunk_start(data.len(), size, i);
    }
    lemma_longest(parts, size);
    assert forall|header: RtpHeader| #[trigger] header_bytes(header).len() == 12 by {
        law_header_round_trip(header, Seq::empty());
    }
    assert forall|extension: FluxVideoExtension| #[trigger] extension_bytes(extension).len()
        == 12 by {
        law_extension_round_trip(extension, Seq::empty());
    }
    if index >= n {
        assert(parity.len() == p);
        law_parity_lengths(parts, fec_percentage, index - n);
        assert(frame_packets(frame, data, max_packet_size, fec_percentage)[index] == repair_packet(
            frame,
            parts,
            parity,
            p,
            index - n,
        ));
    } else {
        assert(frame_packets(frame, data, max_packet_size, fec_percentage)[index] == data_packet(
            frame,
            parts,
            p,
            index,
        ));
    }
}

/// What every packet of a frame says, a data packet like a parity packet: the timestamp
/// and the source that were given, the next sequence number after the packet before it,
/// the frame's number and whether it is a keyframe, how many data and parity packets there
/// are, and its own index. A data packet has the payload type that was given, and the
/// first of them the marker; a parity packet has the payload type 127.
pub proof fn law_packets_tell_their_frame(
    frame: FrameParameters,
    data: Seq<u8>,
    max_packet_size: nat,
    fec_percentage: nat,
    index: int,
)
    requires
        0 <= index < frame_packets(frame, data, max_packet_size, fec_percentage).len(),
    ensures
        ({
            let all = frame_packets(frame, data, max_packet_size, fec_percentage);
            let room = (max_packet_size - 24) as nat;
            let n = (data.len() + room - 1) / room as int;
            let packet = all[index];
            let header = parsed_header(packet)->0;
            let extension = parsed_extension(packet.skip(12))->0;
            &&& packet.len() >= 24
            &&& parsed_header(packet) is Some
            &&& parsed_extension(packet.skip(12)) is Some
            &&& header.timestamp == frame.rtp_timestamp
            &&& header.ssrc == frame.ssrc
            &&& header.sequence_number == (frame.first_sequence_number + index) % 0x1_0000
            &&& header.marker <==> index == 0
            &&& header.payload_type == if index < n {
                (frame.payload_type % 128) as int
            } else {
                127
            }
            &&& extension.frame_number == frame.frame_number
            &&& extension.is_idr == frame.is_keyframe
            &&& extension.total_data_packets == n % 0x1_0000
            &&& extension.packet_index == index % 0x1_0000
            &&& extension.fec_packet_count == (all.len() - n) % 0x1_0000
        }),
{
    let size = (max_packet_size - 24) as nat;
    let n = chunk_count(data.len(), size) as int;
    lemma_chunk_count(data.len(), size);
    if data.len() > 0 {
        lemma_first_chunk(data, size);
    } else {
        law_nothing_to_send(frame, data, max_packet_size, fec_percentage);
    }
    lemma_wrapped(n, index - n);
    if index < n {
        lemma_data_headers(frame, data, max_packet_size, fec_percentage, index);
    } else {
        lemma_repair_headers(frame, data, max_packet_size, fec_percentage, index);
    }
}

proof fn lemma_wrapped(n: int, at: int)
    requires
        0 <= n,
    ensures
        low16(n) == n % 0x1_0000,
        0 <= at ==> low16(low16(n) + at) == (n + at) % 0x1_0000,
{
}

proof fn lemma_data_headers(
    frame: FrameParameters,
    data: Seq<u8>,
    max_packet_size: nat,
    fec_percentage: nat,
    index: int,
)
    requires
        max_packet_size > 24,
        0 <= index < chunk_count(data.len(), (max_packet_size - 24) as nat),
    ensures
        ({
            let n = chunk_count(data.len(), (max_packet_size - 24) as nat);
            let packet = frame_packets(frame, data, max_packet_size, fec_percentage)[index];
            &&& packet.len() >= 24
            &&& parsed_header(packet) == Some(
                RtpHeader {
                    payload_type: frame.payload_type % 128,
                    sequence_number: low16(frame.first_sequence_number + index),
                    timestamp: frame.rtp_timestamp,
                    ssrc: frame.ssrc,
                    marker: index == 0,
                },
            )
            &&& parsed_extension(packet.skip(12)) == Some(
                FluxVideoExtension {
                    frame_number: frame.frame_number,
                    total_data_packets: low16(n as int),
                    packet_index: low16(index),
                    fec_packet_count: low16(parity_quota(n, fec_percentage) as int),
                    is_idr: frame.is_keyframe,
                },
            )
        }),
{
    let parts = chunks(data, (max_packet_size - 24) as nat);
    let quota = parity_quota(parts.len(), fec_percentage);
    let header = RtpHeader {
        payload_type: frame.payload_type,
        sequence_number: low16(frame.first_sequence_number + index),
        timestamp: frame.rtp_timestamp,
        ssrc: frame.ssrc,
        marker: index == 0,
    };
    let extension = FluxVideoExtension {
        frame_number: frame.frame_number,
        total_data_packets: low16(parts.len() as int),
        packet_index: low16(index),
        fec_packet_count: low16(quota as int),
        is_idr: frame.is_keyframe,
    };
    lemma_packet_parts(header, extension, parts[index]);
    assert(frame_packets(frame, data, max_packet_size, fec_percentage)[index] == data_packet(
        frame,
        parts,
        quota,
        index,
    ));
}

proof fn lemma_repair_headers(
    frame: FrameParameters,
    data: Seq<u8>,
    max_packet_size: nat,
    fec_percentage: nat,
    index: int,
)
    requires
        max_packet_size > 24,
        chunk_count(data.len(), (max_packet_size - 24) as nat) <= index < frame_packets(
            frame,
            data,
            max_packet_size,
            fec_percentage,
        ).len(),
    ensures
        ({
            let n = chunk_count(data.len(), (max_packet_size - 24) as nat);
            let packet = frame_packets(frame, data, max_packet_size, fec_percentage)[index];
            &&& packet.len() >= 24
            &&& parsed_header(packet) == Some(
                RtpHeader {
                    payload_type: 127,
                    sequence_number: low16(frame.first_sequence_number + index),
                    timestamp: frame.rtp_timestamp,
                    ssrc: frame.ssrc,
                    marker: false,
                },
            )
            &&& parsed_extension(packet.skip(12)) == Some(
                FluxVideoExtension {
                    frame_number: frame.frame_number,
                    total_data_packets: low16(n as int),
                    packet_index: low16(low16(n as int) + (index - n)),
                    fec_packet_count: low16(parity_quota(n, fec_percentage) as int),
                    is_idr: frame.is_keyframe,
                },
            )
        }),
{
    let parts = chunks(data, (max_packet_size - 24) as nat);
    let parity = parity_packets(parts, fec_percentage);
    let quota = parity_quota(parts.len(), fec_percentage);
    let at = index - parts.len();
    let header = RtpHeader {
        payload_type: payload_types::FEC,
        sequence_number: low16(frame.first_sequence_number + parts.len() + at),
        timestamp: frame.rtp_timestamp,
        ssrc: frame.ssrc,
        marker: false,
    };
    let extension = FluxVideoExtension {
        frame_number: frame.frame_number,
        total_data_packets: low16(parts.len() as int),
        packet_index: low16(low16(parts.len() as int) + at),
        fec_packet_count: low16(quota as int),
        is_idr: frame.is_keyframe,
    };
    lemma_packet_parts(header, extension, parity[at]);
    assert(frame_packets(frame, data, max_packet_size, fec_percentage)[index] == repair_packet(
        frame,
        parts,
        parity,
        quota,
        at,
    ));
}

/// The parts of a packet.
proof fn lemma_packet_parts(header: RtpHeader, extension: FluxVideoExtension, payload: Seq<u8>)
    ensures
        ({
            let packet = header_bytes(header) + extension_bytes(extension) + payload;
            &&& packet.len() == 24 + payload.len()
            &&& parsed_header(packet) == Some(
                RtpHeader { payload_type: header.payload_type % 128, ..header },
            )
            &&& parsed_extension(packet.skip(12)) == Some(extension)
            &&& packet.skip(24) == payload
        }),
{
    let packet = header_bytes(header) + extension_bytes(extension) + payload;
    law_header_round_trip(header, extension_bytes(extension) + payload);
    law_extension_round_trip(extension, payload);
    assert(packet =~= header_bytes(header) + (extension_bytes(extension) + payload));
    assert(packet.skip(12) =~= extension_bytes(extension) + payload);
    assert(packet.skip(24) =~= payload);
}

/// A frame with bytes has a chunk with bytes, so that there is something to protect.
proof fn lemma_first_chunk(data: Seq<u8>, size: nat)
    requires
        size > 0,
        data.len() > 0,
    ensures
        longest(chunks(data, size)) > 0,
{
    let parts = chunks(data, size);
    lemma_chunk_count(data.len(), size);
    lemma_chunk_start(data.len(), size, 0);
    assert(parts[0].len() > 0) by {
        assert(0 * size == 0);
    }
    lemma_longest_covers(parts, 0);
}

proof fn lemma_longest_covers(parts: Seq<Seq<u8>>, index: int)
    requires
        0 <= index < parts.len(),
    ensures
        parts[index].len() <= longest(parts),
    decreases parts.len(),
{
    if index < parts.len() - 1 {
        lemma_longest_covers(parts.drop_last(), index);
        assert(parts.drop_last()[index] == parts[index]);
    }
}

/// A byte of a frame is in one data packet: the one at the byte's place divided by the
/// room in a packet, behind its two headers. There are as many data packets as it takes,
/// all but the last full, and behind them as many parity packets as the percentage asks
/// for, rounded up, and at least one. Without room or without bytes there is no packet.
pub proof fn law_bytes_are_in_their_packet(
    frame: FrameParameters,
    data: Seq<u8>,
    max_packet_size: nat,
    fec_percentage: nat,
    place: int,
)
    requires
        0 <= place < data.len(),
        max_packet_size > 24,
    ensures
        ({
            let all = frame_packets(frame, data, max_packet_size, fec_percentage);
            let room = max_packet_size - 24;
            let n = (data.len() + room - 1) / room;
            let share = (n * fec_percentage + 99) / 100;
            let index = place / room;
            &&& 0 <= index < n
            &&& all.len() == n + if share < 1 {
                1
            } else {
                share
            }
            &&& 24 + place % room < all[index].len()
            &&& all[index][24 + place % room] == data[place]
            &&& all[index].len() == 24 + if index < n - 1 {
                room
            } else {
                data.len() - (n - 1) * room
            }
        }),
{
    let all = frame_packets(frame, data, max_packet_size, fec_percentage);
    let size = (max_packet_size - 24) as nat;
    let room = size as int;
    let parts = chunks(data, size);
    let n = parts.len() as int;
    let quota = parity_quota(parts.len(), fec_percentage);
    let index = place / room;
    lemma_chunk_count(data.len(), size);
    lemma_first_chunk(data, size);
    assert(place == index * room + place % room && 0 <= place % room < room && 0 <= index) by (nonlinear_arith)
        requires
            room > 0,
            0 <= place,
            index == place / room,
    ;
    assert(index < n) by (nonlinear_arith)
        requires
            index * room <= place,
            place < data.len(),
            n * room >= data.len(),
            room > 0,
    ;
    lemma_chunk_start(data.len(), size, index);
    let header = RtpHeader {
        payload_type: frame.payload_type,
        sequence_number: low16(frame.first_sequence_number + index),
        timestamp: frame.rtp_timestamp,
        ssrc: frame.ssrc,
        marker: index == 0,
    };
    let extension = FluxVideoExtension {
        frame_number: frame.frame_number,
        total_data_packets: low16(n),
        packet_index: low16(index),
        fec_packet_count: low16(quota as int),
        is_idr: frame.is_keyframe,
    };
    lemma_packet_parts(header, extension, parts[index]);
    assert(all[index] == data_packet(frame, parts, quota, index));
    assert(all[index].skip(24)[place % room] == data[place]);
    assert(parity_packets(parts, fec_percentage).len() == quota);
    if index == n - 1 {
        assert(index * room + room == n * room) by (nonlinear_arith)
            requires
                index == n - 1,
        ;
    }
}

/// Nothing is sent where there is no room behind the headers, or no byte.
pub proof fn law_nothing_to_send(
    frame: FrameParameters,
    data: Seq<u8>,
    max_packet_size: nat,
    fec_percentage: nat,
)
    requires
        max_packet_size <= 24 || data.len() == 0,
    ensures
        frame_packets(frame, data, max_packet_size, fec_percentage).len() == 0,
{
    if max_packet_size > 24 {
        let size = (max_packet_size - 24) as nat;
        lemma_chunk_count(data.len(), size);
        assert(longest(chunks(data, size)) == 0);
    }
}

/// Counters go on from zero after 65535.
pub proof fn law_counters_wrap(n: int)
    requires
        0 <= n,
    ensures
        n < 65536 ==> low16(n) == n,
        low16(n + 65536) == low16(n),
{
}

/// Behind the packets with the bytes of a frame come the parity packets over those bytes,
/// in their order.
pub proof fn law_parity_follows_the_data(
    frame: FrameParameters,
    data: Seq<u8>,
    max_packet_size: nat,
    fec_percentage: nat,
)
    requires
        data.len() > 0,
        max_packet_size > 24,
    ensures
        ({
            let all = frame_packets(frame, data, max_packet_size, fec_percentage);
            let room = max_packet_size - 24;
            let n = (data.len() + room - 1) / room;
            let parity = parity_packets(
                Seq::new(n as nat, |i: int| all[i].skip(24)),
                fec_percentage,
            );
            &&& all.len() == n + parity.len()
            &&& forall|j: int|
                0 <= j < parity.len() ==> (#[trigger] all[n + j]).skip(24) == parity[j]
        }),
{
    let all = frame_packets(frame, data, max_packet_size, fec_percentage);
    let size = (max_packet_size - 24) as nat;
    let parts = chunks(data, size);
    let n = parts.len() as int;
    let quota = parity_quota(parts.len(), fec_percentage);
    let parity = parity_packets(parts, fec_percentage);
    let carried = Seq::new(n as nat, |i: int| all[i].skip(24));
    assert forall|i: int| 0 <= i < n implies carried[i] == parts[i] by {
        let header = RtpHeader {
            payload_type: frame.payload_type,
            sequence_number: low16(frame.first_sequence_number + i),
            timestamp: frame.rtp_timestamp,
            ssrc: frame.ssrc,
            marker: i == 0,
        };
        let extension = FluxVideoExtension {
            frame_number: frame.frame_number,
            total_data_packets: low16(n),
            packet_index: low16(i),
            fec_packet_count: low16(quota as int),
            is_idr: frame.is_keyframe,
        };
        lemma_packet_parts(header, extension, parts[i]);
        assert(all[i] == data_packet(frame, parts, quota, i));
    }
    assert(carried =~= parts);
    assert forall|j: int| 0 <= j < parity.len() implies (#[trigger] all[n + j]).skip(24)
        == parity[j] by {
        let header = RtpHeader {
            payload_type: payload_types::FEC,
            sequence_number: low16(frame.first_sequence_number + n + j),
            timestamp: frame.rtp_timestamp,
            ssrc: frame.ssrc,
            marker: false,
        };
        let extension = FluxVideoExtension {
            frame_number: frame.frame_number,
            total_data_packets: low16(n),
            packet_index: low16(low16(n) + j),
            fec_packet_count: low16(quota as int),
            is_idr: frame.is_keyframe,
        };
        lemma_packet_parts(header, extension, parity[j]);
        assert(all[n + j] == repair_packet(frame, parts, parity, quota, j));
    }
}

} // verus!
