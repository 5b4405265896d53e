//! H.264 parameters for low-latency streams: one slice per picture, one
//! reference picture, no reordering.

use vstd::prelude::*;

verus! {

/// Frame numbers have four bits more than this.
pub const LOG2_MAX_FRAME_NUM_MINUS4: u8 = 12;

/// Frame numbers count up to here and start over.
pub const MAX_FRAME_NUM: u32 = 0x1_0000;

/// An entry of a reference list that refers to no picture.
pub const NO_REFERENCE_PICTURE: u8 = 0xff;

/// Side of a macroblock in luma samples.
pub const MB_SIZE: u32 = 16;

/// Levels that streams use.
#[derive(Debug, Clone, Copy, PartialEq, Eq, Structural)]
pub enum Level {
    L3_1,
    L3_2,
    L4_0,
    L4_2,
    L5_1,
    L5_2,
    L6_0,
    L6_1,
    L6_2,
}

/// Kinds of pictures.
#[derive(Debug, Clone, Copy, PartialEq, Eq, Structural)]
pub enum PictureType {
    P,
    Idr,
}

/// Kinds of slices.
#[derive(Debug, Clone, Copy, PartialEq, Eq, Structural)]
pub enum SliceType {
    P,
    I,
}

/// A sequence parameter set. What is not listed is zero; the profile is high,
/// the chroma is 4:2:0 in eight bits, and the picture order follows the frame
/// numbers.
#[derive(Debug, Clone, Copy, PartialEq, Eq, Structural)]
pub struct SequenceParameterSet {
    pub level: Level,
    pub log2_max_frame_num_minus4: u8,
    pub max_num_ref_frames: u8,
    pub pic_width_in_mbs_minus1: u32,
    pub pic_height_in_map_units_minus1: u32,
    pub frame_crop_right_offset: u32,
    pub frame_crop_bottom_offset: u32,
    pub frame_mbs_only_flag: bool,
    pub direct_8x8_inference_flag: bool,
    pub frame_cropping_flag: bool,
}

/// A picture parameter set. What is not listed is zero.
#[derive(Debug, Clone, Copy, PartialEq, Eq, Structural)]
pub struct PictureParameterSet {
    pub entropy_coding_mode_flag: bool,
    pub deblocking_filter_control_present_flag: bool,
}

/// Codec state of one frame.
#[derive(Debug, Clone, Copy, PartialEq, Eq, Structural)]
pub struct FrameState {
    /// Whether the frame is an IDR frame.
    pub is_idr: bool,
    /// Its frame number.
    pub frame_num: u32,
    /// Its place in the output order, two for each frame number.
    pub pic_order_cnt: i32,
    /// Number of the IDR frame, where it is one.
    pub idr_pic_id: u16,
}

/// The reference lists of a picture.
#[derive(Debug, Clone, Copy)]
pub struct ReferenceLists {
    pub ref_pic_list0: [u8; 32],
    pub ref_pic_list1: [u8; 32],
}

/// Parameters of a picture.
#[derive(Debug, Clone, Copy)]
pub struct PictureInfo {
    pub idr_pic_id: u16,
    pub primary_pic_type: PictureType,
    pub frame_num: u32,
    pub pic_order_cnt: i32,
    pub is_reference: bool,
    pub idr_pic_flag: bool,
    pub ref_lists: Option<ReferenceLists>,
}

/// A picture that others refer to.
#[derive(Debug, Clone, Copy, PartialEq, Eq, Structural)]
pub struct ReferenceInfo {
    pub primary_pic_type: PictureType,
    pub frame_num: u32,
    pub pic_order_cnt: i32,
}

/// The header of the slice of a picture.
#[derive(Debug, Clone, Copy, PartialEq, Eq, Structural)]
pub struct SliceHeader {
    pub slice_type: SliceType,
    pub slice_qp_delta: i8,
}

/// The number of macroblocks that cover an extent.
pub open spec fn macroblocks(extent: int) -> int {
    (extent + 15) / 16
}

/// The number of macroblocks that cover an extent.
pub fn mb_count(v: u32) -> (count: u32)
    ensures
        count == macroblocks(v as int),
{
    if v % 16 == 0 {
        v / 16
    } else {
        v / 16 + 1
    }
}

/// Levels with the most macroblocks of a frame and of a second.
pub open spec fn level_table() -> Seq<(Level, int, int)> {
    seq![
        (Level::L3_1, 3_600, 108_000),
        (Level::L3_2, 5_120, 216_000),
        (Level::L4_0, 8_192, 245_760),
        (Level::L4_2, 8_704, 522_240),
        (Level::L5_1, 36_864, 983_040),
        (Level::L5_2, 36_864, 2_073_600),
        (Level::L6_0, 139_264, 4_177_920),
        (Level::L6_1, 139_264, 8_355_840),
    ]
}

/// Whether a stream stays inside the limits of a row of the table.
pub open spec fn within_level(row: int, frame_size: int, rate: int) -> bool {
    frame_size <= level_table()[row].1 && rate <= level_table()[row].2
}

/// The first row at or behind `from` that a stream stays inside, or the end of
/// the table.
pub open spec fn level_row(from: int, frame_size: int, rate: int) -> int
    decreases 8 - from,
{
    if from >= 8 {
        8
    } else if within_level(from, frame_size, rate) {
        from
    } else {
        level_row(from + 1, frame_size, rate)
    }
}

/// The smallest level of a stream; the largest level has no limits here.
pub open spec fn level_for(frame_size: int, rate: int) -> Level {
    let row = level_row(0, frame_size, rate);
    if row < 8 {
        level_table()[row].0
    } else {
        Level::L6_2
    }
}

/// Macroblocks of a frame.
pub open spec fn frame_macroblocks(width: u32, height: u32) -> int {
    macroblocks(width as int) * macroblocks(height as int)
}

/// Frames of a second, at least one.
pub open spec fn effective_rate(framerate: u32) -> int {
    if framerate < 1 {
        1
    } else {
        framerate as int
    }
}

/// The smallest level that fits a frame size and rate.
pub fn pick_level(width: u32, height: u32, framerate: u32) -> (level: Level)
    requires
        frame_macroblocks(width, height) <= u32::MAX,
    ensures
        level == level_for(
            frame_macroblocks(width, height),
            frame_macroblocks(width, height) * effective_rate(framerate),
        ),
{
    let ghost size = frame_macroblocks(width, height);
    let columns: u32 = mb_count(width);
    let rows: u32 = mb_count(height);
    assert(0 <= columns * rows) by (nonlinear_arith)
        requires
            0 <= columns,
            0 <= rows,
    ;
    let mbs: u64 = (columns * rows) as u64;
    let rate: u64 = if framerate < 1 {
        1
    } else {
        framerate as u64
    };
    assert(0 <= mbs * rate <= 0xffff_ffff * 0xffff_ffff) by (nonlinear_arith)
        requires
            0 <= mbs <= 0xffff_ffff,
            0 <= rate <= 0xffff_ffff,
    ;
    let mb_rate: u64 = mbs * rate;
    proof {
        reveal_with_fuel(level_row, 9);
    }
    if mbs <= 3_600 && mb_rate <= 108_000 {
        Level::L3_1
    } else if mbs <= 5_120 && mb_rate <= 216_000 {
        Level::L3_2
    } else if mbs <= 8_192 && mb_rate <= 245_760 {
        Level::L4_0
    } else if mbs <= 8_704 && mb_rate <= 522_240 {
        Level::L4_2
    } else if mbs <= 36_864 && mb_rate <= 983_040 {
        Level::L5_1
    } else if mbs <= 36_864 && mb_rate <= 2_073_600 {
        Level::L5_2
    } else if mbs <= 139_264 && mb_rate <= 4_177_920 {
        Level::L6_0
    } else if mbs <= 139_264 && mb_rate <= 8_355_840 {
        Level::L6_1
    } else {
        Level::L6_2
    }
}

/// A stream with a larger frame or a higher rate never has a smaller level.
pub proof fn law_level_monotone(size: int, rate: int, larger_size: int, higher_rate: int)
    requires
        size <= larger_size,
        rate <= higher_rate,
    ensures
        level_row(0, size, rate) <= level_row(0, larger_size, higher_rate),
{
    reveal_with_fuel(level_row, 9);
}

/// The sequence parameter set of a stream.
pub open spec fn sequence_parameters(width: u32, height: u32, framerate: u32) -> SequenceParameterSet {
    let columns = macroblocks(width as int);
    let rows = macroblocks(height as int);
    let right = (columns * 16 - width) / 2;
    let bottom = (rows * 16 - height) / 2;
    SequenceParameterSet {
        level: level_for(columns * rows, columns * rows * effective_rate(framerate)),
        log2_max_frame_num_minus4: LOG2_MAX_FRAME_NUM_MINUS4,
        max_num_ref_frames: 1,
        pic_width_in_mbs_minus1: (columns - 1) as u32,
        pic_height_in_map_units_minus1: (rows - 1) as u32,
        frame_crop_right_offset: right as u32,
        frame_crop_bottom_offset: bottom as u32,
        frame_mbs_only_flag: true,
        direct_8x8_inference_flag: true,
        frame_cropping_flag: right != 0 || bottom != 0,
    }
}

/// Whether a frame size can be coded: it has pixels, and its whole macroblocks
/// can be counted.
pub open spec fn codable(width: u32, height: u32) -> bool {
    &&& width > 0
    &&& height > 0
    &&& macroblocks(width as int) * 16 <= u32::MAX
    &&& macroblocks(height as int) * 16 <= u32::MAX
    &&& frame_macroblocks(width, height) <= u32::MAX
}

/// The sequence parameter set of a progressive 4:2:0 stream in eight bits. What
/// the macroblocks reach beyond the frame is cropped, in units of two samples.
pub fn build_sps(width: u32, height: u32, framerate: u32) -> (sps: SequenceParameterSet)
    requires
        codable(width, height),
    ensures
        sps == sequence_parameters(width, height, framerate),
{
    let columns: u32 = mb_count(width);
    let rows: u32 = mb_count(height);
    let right: u32 = (columns * MB_SIZE - width) / 2;
    let bottom: u32 = (rows * MB_SIZE - height) / 2;
    SequenceParameterSet {
        level: pick_level(width, height, framerate),
        log2_max_frame_num_minus4: LOG2_MAX_FRAME_NUM_MINUS4,
        max_num_ref_frames: 1,
        pic_width_in_mbs_minus1: columns - 1,
        pic_height_in_map_units_minus1: rows - 1,
        frame_crop_right_offset: right,
        frame_crop_bottom_offset: bottom,
        frame_mbs_only_flag: true,
        direct_8x8_inference_flag: true,
        frame_cropping_flag: right != 0 || bottom != 0,
    }
}

/// Cropping leaves the frame that was asked for, up to one sample on each axis
/// where its extent is odd.
pub proof fn law_cropping_restores_size(width: u32, height: u32, framerate: u32)
    requires
        codable(width, height),
    ensures
        ({
            let sps = sequence_parameters(width, height, framerate);
            let coded_width = (sps.pic_width_in_mbs_minus1 + 1) * 16 - 2 * sps.frame_crop_right_offset;
            let coded_height = (sps.pic_height_in_map_units_minus1 + 1) * 16 - 2
                * sps.frame_crop_bottom_offset;
            &&& coded_width == width + width % 2
            &&& coded_height == height + height % 2
        }),
{
}

/// The picture parameter set, with the entropy coding that the driver allows.
pub fn build_pps(cabac: bool) -> (pps: PictureParameterSet)
    ensures
        pps == (PictureParameterSet {
            entropy_coding_mode_flag: cabac,
            deblocking_filter_control_present_flag: true,
        }),
{
    PictureParameterSet {
        entropy_coding_mode_flag: cabac,
        deblocking_filter_control_present_flag: true,
    }
}

/// The kind of a picture.
pub open spec fn kind_of_picture(is_idr: bool) -> PictureType {
    if is_idr {
        PictureType::Idr
    } else {
        PictureType::P
    }
}

/// The kind of a picture.
pub fn picture_type(is_idr: bool) -> (kind: PictureType)
    ensures
        kind == kind_of_picture(is_idr),
{
    if is_idr {
        PictureType::Idr
    } else {
        PictureType::P
    }
}

/// The kind of the slice of a picture.
pub open spec fn kind_of_slice(is_idr: bool) -> SliceType {
    if is_idr {
        SliceType::I
    } else {
        SliceType::P
    }
}

/// The kind of the slice of a picture.
pub fn slice_type(is_idr: bool) -> (kind: SliceType)
    ensures
        kind == kind_of_slice(is_idr),
{
    if is_idr {
        SliceType::I
    } else {
        SliceType::P
    }
}

/// The parameters of the picture of a frame. Every picture is a reference for
/// the next one.
pub open spec fn picture_parameters(state: FrameState, ref_lists: Option<ReferenceLists>) -> PictureInfo {
    PictureInfo {
        idr_pic_id: state.idr_pic_id,
        primary_pic_type: kind_of_picture(state.is_idr),
        frame_num: state.frame_num,
        pic_order_cnt: state.pic_order_cnt,
        is_reference: true,
        idr_pic_flag: state.is_idr,
        ref_lists,
    }
}

/// The parameters of the picture of a frame; IDR frames take no reference lists.
pub fn build_picture_info(state: &FrameState, ref_lists: Option<ReferenceLists>) -> (info: PictureInfo)
    ensures
        info == picture_parameters(*state, ref_lists),
{
    PictureInfo {
        idr_pic_id: state.idr_pic_id,
        primary_pic_type: picture_type(state.is_idr),
        frame_num: state.frame_num,
        pic_order_cnt: state.pic_order_cnt,
        is_reference: true,
        idr_pic_flag: state.is_idr,
        ref_lists,
    }
}

/// Whether lists refer to one slot and to nothing else.
pub open spec fn refers_to(lists: ReferenceLists, ref_slot: u8) -> bool {
    &&& lists.ref_pic_list0@[0] == ref_slot
    &&& forall|i: int| 1 <= i < 32 ==> #[trigger] lists.ref_pic_list0@[i] == NO_REFERENCE_PICTURE
    &&& forall|i: int| 0 <= i < 32 ==> #[trigger] lists.ref_pic_list1@[i] == NO_REFERENCE_PICTURE
}

/// The reference lists with a single slot in them.
pub fn build_reference_lists(ref_slot: u8) -> (lists: ReferenceLists)
    ensures
        refers_to(lists, ref_slot),
{
    let mut list0: [u8; 32] = [0xff; 32];
    list0[0] = ref_slot;
    ReferenceLists { ref_pic_list0: list0, ref_pic_list1: [0xff; 32] }
}

/// A frame as a reference.
pub open spec fn reference_of(state: FrameState) -> ReferenceInfo {
    ReferenceInfo {
        primary_pic_type: kind_of_picture(state.is_idr),
        frame_num: state.frame_num,
        pic_order_cnt: state.pic_order_cnt,
    }
}

/// A frame as a reference, for the slot it is written to and for reading it.
pub fn build_reference_info(state: &FrameState) -> (info: ReferenceInfo)
    ensures
        info == reference_of(*state),
{
    ReferenceInfo {
        primary_pic_type: picture_type(state.is_idr),
        frame_num: state.frame_num,
        pic_order_cnt: state.pic_order_cnt,
    }
}

/// The header of the one slice of a picture.
pub fn build_slice_header(is_idr: bool, qp_delta: i8) -> (slice: SliceHeader)
    ensures
        slice == (SliceHeader { slice_type: kind_of_slice(is_idr), slice_qp_delta: qp_delta }),
{
    SliceHeader { slice_type: slice_type(is_idr), slice_qp_delta: qp_delta }
}

/// As many macroblocks cover an extent as it takes, and no more.
pub proof fn law_macroblocks_cover(extent: int)
    requires
        extent >= 0,
    ensures
        extent <= 16 * macroblocks(extent) < extent + 16,
{
}

/// The limits of a level, in macroblocks of a frame and of a second; the largest has none
/// here.
pub open spec fn level_limits(level: Level) -> Option<(int, int)> {
    match level {
        Level::L3_1 => Some((3_600, 108_000)),
        Level::L3_2 => Some((5_120, 216_000)),
        Level::L4_0 => Some((8_192, 245_760)),
        Level::L4_2 => Some((8_704, 522_240)),
        Level::L5_1 => Some((36_864, 983_040)),
        Level::L5_2 => Some((36_864, 2_073_600)),
        Level::L6_0 => Some((139_264, 4_177_920)),
        Level::L6_1 => Some((139_264, 8_355_840)),
        Level::L6_2 => None,
    }
}

/// A stream stays inside the limits of its level, and inside those of no smaller one.
pub proof fn law_the_smallest_level_is_picked(size: int, rate: int, other: Level)
    ensures
        level_limits(level_for(size, rate)) matches Some(limits) ==> size <= limits.0 && rate
            <= limits.1,
        match level_limits(other) {
            Some(limits) => size <= limits.0 && rate <= limits.1 ==> match level_limits(
                level_for(size, rate),
            ) {
                Some(own) => own.0 <= limits.0 && own.1 <= limits.1,
                None => false,
            },
            None => true,
        },
        level_limits(Level::L3_1) == Some((3_600int, 108_000int)),
        level_limits(Level::L3_2) == Some((5_120int, 216_000int)),
        level_limits(Level::L4_0) == Some((8_192int, 245_760int)),
        level_limits(Level::L4_2) == Some((8_704int, 522_240int)),
        level_limits(Level::L5_1) == Some((36_864int, 983_040int)),
        level_limits(Level::L5_2) == Some((36_864int, 2_073_600int)),
        level_limits(Level::L6_0) == Some((139_264int, 4_177_920int)),
        level_limits(Level::L6_1) == Some((139_264int, 8_355_840int)),
        level_limits(Level::L6_2) is None,
{
    reveal_with_fuel(level_row, 9);
}

/// What a sequence parameter set says: one reference picture, frame numbers of sixteen
/// bits, whole pictures, cropping where there is something to crop, and the level of the
/// picture's size and rate, a rate of none counting as one.
pub proof fn law_sequence_parameters(width: u32, height: u32, framerate: u32)
    requires
        codable(width, height),
    ensures
        ({
            let sps = sequence_parameters(width, height, framerate);
            let size = (sps.pic_width_in_mbs_minus1 + 1) * (sps.pic_height_in_map_units_minus1 + 1);
            &&& sps.max_num_ref_frames == 1
            &&& sps.log2_max_frame_num_minus4 + 4 == 16
            &&& MAX_FRAME_NUM == 65536
            &&& sps.frame_mbs_only_flag && sps.direct_8x8_inference_flag
            &&& sps.frame_cropping_flag <==> sps.frame_crop_right_offset > 0
                || sps.frame_crop_bottom_offset > 0
            &&& sps.frame_crop_right_offset < 8 && sps.frame_crop_bottom_offset < 8
            &&& framerate > 0 ==> sps.level == level_for(size, size * framerate)
            &&& framerate == 0 ==> sps.level == level_for(size, size)
        }),
{
}

/// An IDR frame is an IDR picture of an I slice, any other one a P picture of a P slice.
/// Pictures and references carry the numbers of their frame, and every picture is a
/// reference. A list refers to its one slot and says 255 everywhere else.
pub proof fn law_pictures_carry_their_frame(
    state: FrameState,
    lists: ReferenceLists,
    ref_slot: u8,
)
    ensures
        ({
            let picture = picture_parameters(state, Some(lists));
            let reference = reference_of(state);
            &&& picture.is_reference
            &&& picture.idr_pic_flag == state.is_idr
            &&& picture.primary_pic_type is Idr <==> state.is_idr
            &&& kind_of_slice(state.is_idr) is I <==> state.is_idr
            &&& picture.frame_num == state.frame_num && reference.frame_num == state.frame_num
            &&& picture.pic_order_cnt == state.pic_order_cnt && reference.pic_order_cnt
                == state.pic_order_cnt
            &&& picture.idr_pic_id == state.idr_pic_id
            &&& reference.primary_pic_type == picture.primary_pic_type
            &&& picture.ref_lists == Some(lists)
        }),
        refers_to(lists, ref_slot) <==> {
            &&& lists.ref_pic_list0@[0] == ref_slot
            &&& forall|i: int| 1 <= i < 32 ==> #[trigger] lists.ref_pic_list0@[i] == 255
            &&& forall|i: int| 0 <= i < 32 ==> #[trigger] lists.ref_pic_list1@[i] == 255
        },
{
}

/// The macroblocks of a frame cover it, and a rate of none counts as one.
pub proof fn law_frames_in_macroblocks(width: u32, height: u32, framerate: u32, columns: int, rows: int)
    requires
        16 * (columns - 1) < width <= 16 * columns,
        16 * (rows - 1) < height <= 16 * rows,
    ensures
        frame_macroblocks(width, height) == columns * rows,
        framerate > 0 ==> effective_rate(framerate) == framerate,
        framerate == 0 ==> effective_rate(framerate) == 1,
        MB_SIZE == 16,
        LOG2_MAX_FRAME_NUM_MINUS4 == 12,
        NO_REFERENCE_PICTURE == 255,
{
}

/// A picture is an IDR picture or predicted from another.
pub proof fn law_pictures_are_idr_or_predicted(is_idr: bool)
    ensures
        is_idr ==> kind_of_picture(is_idr) == PictureType::Idr && kind_of_slice(is_idr)
            == SliceType::I,
        !is_idr ==> kind_of_picture(is_idr) == PictureType::P && kind_of_slice(is_idr)
            == SliceType::P,
{
}

/// A picture carries its frame whatever it refers to.
pub proof fn law_pictures_with_and_without_references(
    state: FrameState,
    lists: Option<ReferenceLists>,
)
    ensures
        picture_parameters(state, lists) == (PictureInfo {
            idr_pic_id: state.idr_pic_id,
            primary_pic_type: if state.is_idr {
                PictureType::Idr
            } else {
                PictureType::P
            },
            frame_num: state.frame_num,
            pic_order_cnt: state.pic_order_cnt,
            is_reference: true,
            idr_pic_flag: state.is_idr,
            ref_lists: lists,
        }),
{
}

/// A frame can be coded that has pixels and whose macroblocks can be counted and measured
/// in 32 bits.
pub proof fn law_codable_frames(width: u32, height: u32, columns: int, rows: int)
    requires
        16 * (columns - 1) < width <= 16 * columns,
        16 * (rows - 1) < height <= 16 * rows,
    ensures
        codable(width, height) <==> width > 0 && height > 0 && 16 * columns < 0x1_0000_0000 && 16
            * rows < 0x1_0000_0000 && columns * rows < 0x1_0000_0000,
{
}

} // verus!
