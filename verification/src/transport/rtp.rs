//! RTP headers and the video header that follows them in every packet.

use bytes::BytesMut;
use vstd::prelude::*;

use crate::transport::buffer::{
    be16, be16_value, be32, be32_value, buffer_bytes, law_be16_round_trip, law_be32_round_trip,
    put_u16, put_u32, put_u8, read_be16, read_be32,
};

pub mod payload_types;

verus! {

/// RTP protocol version.
pub const RTP_VERSION: u8 = 2;

/// The fixed RTP header.
#[derive(Debug, Clone, Copy, PartialEq, Eq, Structural)]
pub struct RtpHeader {
    /// Payload type, seven bits on the wire.
    pub payload_type: u8,
    /// Sequence number, wrapping.
    pub sequence_number: u16,
    /// Timestamp in media clock units.
    pub timestamp: u32,
    /// Synchronization source identifier.
    pub ssrc: u32,
    /// The marker bit.
    pub marker: bool,
}

/// The bytes of an RTP header: version two without padding, extension or
/// contributing sources, then the marker over the low seven bits of the payload
/// type, then the numbers.
#[verifier::opaque]
pub open spec fn header_bytes(header: RtpHeader) -> Seq<u8> {
    seq![0x80u8, ((header.payload_type % 128) + if header.marker { 128int } else { 0 }) as u8]
        + be16(header.sequence_number) + be32(header.timestamp) + be32(header.ssrc)
}

/// The header that a byte string starts with, where it starts with one: twelve
/// bytes of which the first has the version in its two high bits.
#[verifier::opaque]
pub open spec fn parsed_header(data: Seq<u8>) -> Option<RtpHeader> {
    if data.len() < 12 || data[0] / 64 != RTP_VERSION {
        None
    } else {
        Some(
            RtpHeader {
                payload_type: data[1] % 128,
                sequence_number: be16_value(data.subrange(2, 4)) as u16,
                timestamp: be32_value(data.subrange(4, 8)) as u32,
                ssrc: be32_value(data.subrange(8, 12)) as u32,
                marker: data[1] >= 128,
            },
        )
    }
}

/// Frame metadata that follows the RTP header of every packet.
#[derive(Debug, Clone, Copy, PartialEq, Eq, Structural)]
pub struct FluxVideoExtension {
    /// Number of the frame in its stream.
    pub frame_number: u32,
    /// Number of data packets of the frame.
    pub total_data_packets: u16,
    /// Index of the packet within the frame.
    pub packet_index: u16,
    /// Number of parity packets of the frame.
    pub fec_packet_count: u16,
    /// Whether the frame is a keyframe.
    pub is_idr: bool,
}

/// The bytes of the video header; of the flags only the lowest is in use.
#[verifier::opaque]
pub open spec fn extension_bytes(extension: FluxVideoExtension) -> Seq<u8> {
    be32(extension.frame_number) + be16(extension.total_data_packets) + be16(extension.packet_index)
        + be16(extension.fec_packet_count) + be16(
        if extension.is_idr {
            1
        } else {
            0
        },
    )
}

/// The video header that a byte string starts with, if it is long enough.
#[verifier::opaque]
pub open spec fn parsed_extension(data: Seq<u8>) -> Option<FluxVideoExtension> {
    if data.len() < 12 {
        None
    } else {
        Some(
            FluxVideoExtension {
                frame_number: be32_value(data.subrange(0, 4)) as u32,
                total_data_packets: be16_value(data.subrange(4, 6)) as u16,
                packet_index: be16_value(data.subrange(6, 8)) as u16,
                fec_packet_count: be16_value(data.subrange(8, 10)) as u16,
                is_idr: be16_value(data.subrange(10, 12)) % 2 == 1,
            },
        )
    }
}

impl RtpHeader {
    /// Size of the header in bytes.
    pub const SIZE: usize = 12;

    /// Appends the header to a buffer.
    pub fn serialize(&self, buf: &mut BytesMut)
        requires
            buffer_bytes(*old(buf)).len() + 12 <= isize::MAX,
        ensures
            buffer_bytes(*final(buf)) == buffer_bytes(*old(buf)) + header_bytes(*self),
            header_bytes(*self).len() == 12,
    {
        put_u8(buf, (RTP_VERSION << 6) & 0xC0);
        let mark: u8 = if self.marker {
            0x80
        } else {
            0x00
        };
        let payload_type: u8 = self.payload_type;
        put_u8(buf, mark | (payload_type & 0x7F));
        put_u16(buf, self.sequence_number);
        put_u32(buf, self.timestamp);
        put_u32(buf, self.ssrc);
        proof {
            reveal(header_bytes);
            assert((2u8 << 6u8) & 0xC0u8 == 0x80u8) by (bit_vector);
            assert(0x80u8 | (payload_type & 0x7F) == payload_type % 128 + 128) by (bit_vector);
            assert(0x00u8 | (payload_type & 0x7F) == payload_type % 128) by (bit_vector);
            assert(buffer_bytes(*buf) =~= buffer_bytes(*old(buf)) + header_bytes(*self));
        }
    }

    /// Reads the header at the start of a packet. There is none where the
    /// packet is too short or of another version.
    pub fn parse(data: &[u8]) -> (header: Option<Self>)
        ensures
            header == parsed_header(data@),
    {
        proof {
            reveal(parsed_header);
        }
        if data.len() < Self::SIZE {
            return None;
        }
        let first: u8 = data[0];
        let second: u8 = data[1];
        proof {
            assert((first >> 6u8) & 0x03 == first / 64) by (bit_vector);
            assert((second & 0x80 != 0) == (second >= 128)) by (bit_vector);
            assert(second & 0x7F == second % 128) by (bit_vector);
        }
        let version: u8 = (first >> 6) & 0x03;
        if version != RTP_VERSION {
            return None;
        }
        Some(
            Self {
                payload_type: second & 0x7F,
                sequence_number: read_be16(data, 2),
                timestamp: read_be32(data, 4),
                ssrc: read_be32(data, 8),
                marker: (second & 0x80) != 0,
            },
        )
    }
}

impl FluxVideoExtension {
    /// Size of the video header in bytes.
    pub const SIZE: usize = 12;

    /// Appends the video header to a buffer.
    pub fn serialize(&self, buf: &mut BytesMut)
        requires
            buffer_bytes(*old(buf)).len() + 12 <= isize::MAX,
        ensures
            buffer_bytes(*final(buf)) == buffer_bytes(*old(buf)) + extension_bytes(*self),
            extension_bytes(*self).len() == 12,
    {
        put_u32(buf, self.frame_number);
        put_u16(buf, self.total_data_packets);
        put_u16(buf, self.packet_index);
        put_u16(buf, self.fec_packet_count);
        let flags: u16 = if self.is_idr {
            0x01
        } else {
            0x00
        };
        put_u16(buf, flags);
        proof {
            reveal(extension_bytes);
        }
        assert(buffer_bytes(*buf) =~= buffer_bytes(*old(buf)) + extension_bytes(*self));
    }

    /// Reads the video header at the start of a byte string, if it is long enough.
    pub fn parse(data: &[u8]) -> (extension: Option<Self>)
        ensures
            extension == parsed_extension(data@),
    {
        proof {
            reveal(parsed_extension);
        }
        if data.len() < Self::SIZE {
            return None;
        }
        let flags: u16 = read_be16(data, 10);
        proof {
            assert((flags & 0x01 != 0) == (flags % 2 == 1)) by (bit_vector);
        }
        Some(
            Self {
                frame_number: read_be32(data, 0),
                total_data_packets: read_be16(data, 4),
                packet_index: read_be16(data, 6),
                fec_packet_count: read_be16(data, 8),
                is_idr: (flags & 0x01) != 0,
            },
        )
    }
}

/// A header reads back from its bytes, whatever follows them. Of its payload type
/// come back the seven bits that it has on the wire.
pub proof fn law_header_round_trip(header: RtpHeader, rest: Seq<u8>)
    ensures
        header_bytes(header).len() == RtpHeader::SIZE,
        parsed_header(header_bytes(header) + rest) == Some(
            (RtpHeader { payload_type: header.payload_type % 128, ..header }),
        ),
        header.payload_type < 128 ==> parsed_header(header_bytes(header) + rest) == Some(header),
{
    reveal(header_bytes);
    reveal(parsed_header);
    let data = header_bytes(header) + rest;
    law_be16_round_trip(header.sequence_number);
    law_be32_round_trip(header.timestamp);
    law_be32_round_trip(header.ssrc);
    assert(data[0] == 0x80);
    assert(data[1] == header.payload_type % 128 + if header.marker {
        128int
    } else {
        0
    });
    assert(data.subrange(2, 4) =~= be16(header.sequence_number));
    assert(data.subrange(4, 8) =~= be32(header.timestamp));
    assert(data.subrange(8, 12) =~= be32(header.ssrc));
}

/// A video header reads back from its bytes, whatever follows them.
pub proof fn law_extension_round_trip(extension: FluxVideoExtension, rest: Seq<u8>)
    ensures
        extension_bytes(extension).len() == FluxVideoExtension::SIZE,
        parsed_extension(extension_bytes(extension) + rest) == Some(extension),
{
    reveal(extension_bytes);
    reveal(parsed_extension);
    let data = extension_bytes(extension) + rest;
    law_be32_round_trip(extension.frame_number);
    law_be16_round_trip(extension.total_data_packets);
    law_be16_round_trip(extension.packet_index);
    law_be16_round_trip(extension.fec_packet_count);
    assert(data.subrange(0, 4) =~= be32(extension.frame_number));
    assert(data.subrange(4, 6) =~= be16(extension.total_data_packets));
    assert(data.subrange(6, 8) =~= be16(extension.packet_index));
    assert(data.subrange(8, 10) =~= be16(extension.fec_packet_count));
    assert(data.subrange(10, 12) =~= be16(
        if extension.is_idr {
            1
        } else {
            0
        },
    ));
}

/// Where everything stands in a header: version two in the first byte, the marker over
/// the payload type in the second, then the sequence number in two bytes, the timestamp in
/// four and the source in four, each with its high byte first.
pub proof fn law_header_layout(header: RtpHeader)
    ensures
        ({
            let bytes = header_bytes(header);
            &&& bytes.len() == 12
            &&& bytes[0] == 128
            &&& bytes[1] == header.payload_type % 128 + if header.marker {
                128int
            } else {
                0
            }
            &&& bytes[2] * 256 + bytes[3] == header.sequence_number
            &&& bytes[4] * 0x100_0000 + bytes[5] * 0x1_0000 + bytes[6] * 256 + bytes[7]
                == header.timestamp
            &&& bytes[8] * 0x100_0000 + bytes[9] * 0x1_0000 + bytes[10] * 256 + bytes[11]
                == header.ssrc
        }),
{
    reveal(header_bytes);
}

/// Where everything stands in a video header: the frame's number in four bytes, then in
/// two bytes each the number of data packets, the index, the number of parity packets and
/// the flags, of which the lowest is set for a keyframe.
pub proof fn law_extension_layout(extension: FluxVideoExtension)
    ensures
        ({
            let bytes = extension_bytes(extension);
            &&& bytes.len() == 12
            &&& bytes[0] * 0x100_0000 + bytes[1] * 0x1_0000 + bytes[2] * 256 + bytes[3]
                == extension.frame_number
            &&& bytes[4] * 256 + bytes[5] == extension.total_data_packets
            &&& bytes[6] * 256 + bytes[7] == extension.packet_index
            &&& bytes[8] * 256 + bytes[9] == extension.fec_packet_count
            &&& bytes[10] * 256 + bytes[11] == if extension.is_idr {
                1int
            } else {
                0
            }
        }),
{
    reveal(extension_bytes);
}

/// A header is read from twelve bytes or more of which the first has the version two in
/// its high bits, and from nothing else. What is behind the twelfth byte does not matter.
pub proof fn law_headers_are_recognized(data: Seq<u8>)
    ensures
        parsed_header(data) is Some <==> data.len() >= 12 && 128 <= data[0] < 192,
        parsed_header(data) matches Some(header) ==> {
            &&& header.payload_type < 128
            &&& data[1] == header.payload_type + if header.marker {
                128int
            } else {
                0
            }
            &&& data[2] * 256 + data[3] == header.sequence_number
            &&& data[4] * 0x100_0000 + data[5] * 0x1_0000 + data[6] * 256 + data[7]
                == header.timestamp
            &&& data[8] * 0x100_0000 + data[9] * 0x1_0000 + data[10] * 256 + data[11] == header.ssrc
        },
        parsed_extension(data) is Some <==> data.len() >= 12,
        parsed_extension(data) matches Some(extension) ==> {
            &&& data[0] * 0x100_0000 + data[1] * 0x1_0000 + data[2] * 256 + data[3]
                == extension.frame_number
            &&& data[4] * 256 + data[5] == extension.total_data_packets
            &&& data[6] * 256 + data[7] == extension.packet_index
            &&& data[8] * 256 + data[9] == extension.fec_packet_count
            &&& extension.is_idr <==> data[11] % 2 == 1
        },
{
    reveal(parsed_header);
    reveal(parsed_extension);
    if data.len() >= 12 {
        assert(data.subrange(2, 4)[0] == data[2] && data.subrange(2, 4)[1] == data[3]);
        assert(data.subrange(8, 12)[3] == data[11]);
        assert((data[10] * 256 + data[11]) % 2 == data[11] % 2);
    }
}

/// The version and the sizes of the headers.
pub proof fn law_header_sizes()
    ensures
        RTP_VERSION == 2,
        RtpHeader::SIZE == 12,
        FluxVideoExtension::SIZE == 12,
{
}

} // verus!
