//! Recognition of keyframes in Annex-B bitstreams.

use vstd::prelude::*;

use crate::types::VideoCodec;

verus! {

/// Whether a start code stands at a position with a byte behind it. A four-byte
/// start code is a zero in front of a three-byte one.
pub open spec fn starts_unit(data: Seq<u8>, at: int) -> bool {
    0 <= at && at + 3 < data.len() && data[at] == 0 && data[at + 1] == 0 && data[at + 2] == 1
}

/// Whether the first byte of a unit names an IDR slice. AV1 has no such units.
pub open spec fn is_idr_unit(codec: VideoCodec, first: u8) -> bool {
    match codec {
        VideoCodec::H264 => first % 32 == 5,
        VideoCodec::H265 => 19 <= first / 2 % 64 <= 20,
        VideoCodec::Av1 => false,
    }
}

/// Whether a bitstream holds an IDR slice.
pub open spec fn holds_idr(data: Seq<u8>, codec: VideoCodec) -> bool {
    exists|at: int| #[trigger] starts_unit(data, at) && is_idr_unit(codec, data[at + 3])
}

/// Whether any unit of a bitstream is an IDR slice.
pub fn contains_idr_nalu(data: &[u8], codec: VideoCodec) -> (found: bool)
    ensures
        found == holds_idr(data@, codec),
{
    if data.len() < 4 {
        return false;
    }
    for at in 0..(data.len() - 3)
        invariant
            data@.len() >= 4,
            forall|p: int|
                0 <= p < at ==> !(#[trigger] starts_unit(data@, p) && is_idr_unit(
                    codec,
                    data@[p + 3],
                )),
    {
        if data[at] == 0 && data[at + 1] == 0 && data[at + 2] == 1 {
            let first: u8 = data[at + 3];
            let idr: bool = match codec {
                VideoCodec::H264 => first % 32 == 5,
                VideoCodec::H265 => first / 2 % 64 >= 19 && first / 2 % 64 <= 20,
                VideoCodec::Av1 => false,
            };
            if idr {
                assert(starts_unit(data@, at as int));
                return true;
            }
        }
    }
    false
}

/// Whether an H.264 bitstream holds an IDR slice.
pub fn bitstream_has_idr(data: &[u8]) -> (found: bool)
    ensures
        found == holds_idr(data@, VideoCodec::H264),
{
    contains_idr_nalu(data, VideoCodec::H264)
}

/// An IDR slice stays found whatever comes behind it.
pub proof fn law_idr_survives_appending(data: Seq<u8>, rest: Seq<u8>, codec: VideoCodec)
    requires
        holds_idr(data, codec),
    ensures
        holds_idr(data + rest, codec),
{
    let at = choose|at: int| #[trigger] starts_unit(data, at) && is_idr_unit(codec, data[at + 3]);
    assert(starts_unit(data + rest, at));
}

/// A bitstream holds an IDR slice exactly where two zeros and a one are followed by a byte
/// that says so: of H.264 its low five bits are 5, of H.265 the six bits over its lowest
/// are 19 or 20. AV1 is never found to hold one.
pub proof fn law_idr_slices_follow_start_codes(data: Seq<u8>, at: int)
    ensures
        ({
            let starts = 0 <= at && at + 3 < data.len() && data[at] == 0 && data[at + 1] == 0 && data[at
                + 2] == 1;
            &&& starts && data[at + 3] % 32 == 5 ==> holds_idr(data, VideoCodec::H264)
            &&& starts && (data[at + 3] / 2 % 64 == 19 || data[at + 3] / 2 % 64 == 20) ==> holds_idr(
                data,
                VideoCodec::H265,
            )
            &&& !holds_idr(data, VideoCodec::Av1)
        }),
        holds_idr(data, VideoCodec::H264) ==> exists|i: int|
            0 <= i && i + 3 < data.len() && data[i] == 0 && data[i + 1] == 0 && data[i + 2] == 1
                && #[trigger] data[i + 3] % 32 == 5,
        holds_idr(data, VideoCodec::H265) ==> exists|i: int|
            0 <= i && i + 3 < data.len() && data[i] == 0 && data[i + 1] == 0 && data[i + 2] == 1 && 19
                <= #[trigger] data[i + 3] / 2 % 64 <= 20,
{
    if 0 <= at && at + 3 < data.len() && data[at] == 0 && data[at + 1] == 0 && data[at + 2] == 1 {
        assert(starts_unit(data, at));
    }
    if holds_idr(data, VideoCodec::H264) {
        let i = choose|i: int|
            #[trigger] starts_unit(data, i) && is_idr_unit(VideoCodec::H264, data[i + 3]);
        assert(data[i + 3] % 32 == 5);
    }
    if holds_idr(data, VideoCodec::H265) {
        let i = choose|i: int|
            #[trigger] starts_unit(data, i) && is_idr_unit(VideoCodec::H265, data[i + 3]);
        assert(19 <= data[i + 3] / 2 % 64 <= 20);
    }
}

} // verus!
