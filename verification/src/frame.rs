//! Captured frames and encoded packets.

use vstd::prelude::*;
use vstd::slice::slice_to_vec;

use crate::types::{PixelFormat, Resolution};

verus! {

/// One plane of a DMA-BUF: the number of its file descriptor, and where the
/// plane lies in it.
#[derive(Debug, Clone, Copy, PartialEq, Eq, Structural)]
pub struct DmaBufPlane {
    pub fd: i32,
    pub offset: u32,
    pub stride: u32,
}

/// A frame that lies in a DMA-BUF.
#[derive(Debug)]
pub struct DmaBufHandle {
    pub planes: Vec<DmaBufPlane>,
    pub modifier: u64,
    pub fourcc: u32,
    pub width: u32,
    pub height: u32,
}

/// A frame that lies in graphics memory.
#[derive(Debug)]
pub enum GpuFrameHandle {
    DmaBuf(DmaBufHandle),
    DxgiSharedTexture(u64),
}

/// A captured frame. Its timestamp counts nanoseconds on the capture clock.
#[derive(Debug)]
pub struct CapturedFrame {
    pub sequence: u64,
    pub timestamp: u64,
    pub format: PixelFormat,
    pub resolution: Resolution,
    pub stride: u32,
    pub data: Vec<u8>,
    pub gpu_handle: Option<GpuFrameHandle>,
}

/// An encoded access unit.
#[derive(Debug)]
pub struct EncodedPacket {
    pub frame_index: u64,
    pub pts: u64,
    pub is_keyframe: bool,
    pub data: Vec<u8>,
}

/// What a graphics handle refers to.
#[verifier::ext_equal]
pub enum HandleView {
    DmaBuf {
        planes: Seq<DmaBufPlane>,
        modifier: u64,
        fourcc: u32,
        width: u32,
        height: u32,
    },
    DxgiSharedTexture(u64),
}

/// What a captured frame holds.
#[verifier::ext_equal]
pub struct CapturedView {
    pub sequence: u64,
    pub timestamp: u64,
    pub format: PixelFormat,
    pub resolution: Resolution,
    pub stride: u32,
    pub data: Seq<u8>,
    pub gpu_handle: Option<HandleView>,
}

/// What an encoded packet holds.
#[verifier::ext_equal]
pub struct PacketView {
    pub frame_index: u64,
    pub pts: u64,
    pub is_keyframe: bool,
    pub data: Seq<u8>,
}

/// The packets of a list, in order.
pub open spec fn packet_views(packets: Seq<EncodedPacket>) -> Seq<PacketView> {
    Seq::new(packets.len(), |i: int| packets[i]@)
}

impl View for EncodedPacket {
    type V = PacketView;

    open spec fn view(&self) -> PacketView {
        PacketView {
            frame_index: self.frame_index,
            pts: self.pts,
            is_keyframe: self.is_keyframe,
            data: self.data@,
        }
    }
}

impl View for GpuFrameHandle {
    type V = HandleView;

    open spec fn view(&self) -> HandleView {
        match *self {
            GpuFrameHandle::DmaBuf(handle) => HandleView::DmaBuf {
                planes: handle.planes@,
                modifier: handle.modifier,
                fourcc: handle.fourcc,
                width: handle.width,
                height: handle.height,
            },
            GpuFrameHandle::DxgiSharedTexture(texture) => HandleView::DxgiSharedTexture(texture),
        }
    }
}

impl View for CapturedFrame {
    type V = CapturedView;

    open spec fn view(&self) -> CapturedView {
        CapturedView {
            sequence: self.sequence,
            timestamp: self.timestamp,
            format: self.format,
            resolution: self.resolution,
            stride: self.stride,
            data: self.data@,
            gpu_handle: match self.gpu_handle {
                Some(handle) => Some(handle@),
                None => None,
            },
        }
    }
}

impl GpuFrameHandle {
    /// Another handle to the same frame.
    pub fn duplicate(&self) -> (handle: Self)
        ensures
            handle@ == self@,
    {
        match self {
            GpuFrameHandle::DmaBuf(handle) => GpuFrameHandle::DmaBuf(
                DmaBufHandle {
                    planes: slice_to_vec(handle.planes.as_slice()),
                    modifier: handle.modifier,
                    fourcc: handle.fourcc,
                    width: handle.width,
                    height: handle.height,
                },
            ),
            GpuFrameHandle::DxgiSharedTexture(texture) => GpuFrameHandle::DxgiSharedTexture(
                *texture,
            ),
        }
    }
}

impl CapturedFrame {
    /// A copy of the frame.
    pub fn duplicate(&self) -> (frame: Self)
        ensures
            frame@ == self@,
    {
        CapturedFrame {
            sequence: self.sequence,
            timestamp: self.timestamp,
            format: self.format,
            resolution: self.resolution,
            stride: self.stride,
            data: slice_to_vec(self.data.as_slice()),
            gpu_handle: match &self.gpu_handle {
                Some(handle) => Some(handle.duplicate()),
                None => None,
            },
        }
    }
}

/// A frame is seen with its own fields.
pub proof fn law_frames_are_seen(frame: CapturedFrame)
    ensures
        frame@.sequence == frame.sequence,
        frame@.timestamp == frame.timestamp,
        frame@.format == frame.format,
        frame@.resolution == frame.resolution,
        frame@.stride == frame.stride,
        frame@.data == frame.data@,
        frame.gpu_handle is None <==> frame@.gpu_handle is None,
        frame.gpu_handle matches Some(handle) ==> frame@.gpu_handle == Some(handle@),
{
}

/// A graphics handle is seen with its own fields.
pub proof fn law_handles_are_seen(handle: DmaBufHandle, texture: u64)
    ensures
        GpuFrameHandle::DmaBuf(handle)@ == (HandleView::DmaBuf {
            planes: handle.planes@,
            modifier: handle.modifier,
            fourcc: handle.fourcc,
            width: handle.width,
            height: handle.height,
        }),
        GpuFrameHandle::DxgiSharedTexture(texture)@ == HandleView::DxgiSharedTexture(texture),
{
}

/// Packets are seen with their own fields, in their order.
pub proof fn law_encoded_packets_are_seen(packets: Seq<EncodedPacket>, i: int)
    requires
        0 <= i < packets.len(),
    ensures
        packet_views(packets).len() == packets.len(),
        packet_views(packets)[i].frame_index == packets[i].frame_index,
        packet_views(packets)[i].pts == packets[i].pts,
        packet_views(packets)[i].is_keyframe == packets[i].is_keyframe,
        packet_views(packets)[i].data == packets[i].data@,
        packet_views(packets)[i] == packets[i]@,
{
}

} // verus!
