//! How captured frames reach graphics memory.

use vstd::prelude::*;

use crate::error::{ErrorView, FluxError};
use crate::frame::{CapturedFrame, CapturedView, DmaBufHandle, GpuFrameHandle, HandleView};

verus! {

/// Ways into graphics memory.
#[derive(Debug, Clone, Copy, PartialEq, Eq, Structural)]
pub enum ImportPath {
    /// The DMA-BUF of the frame is taken over without a copy.
    DmaBuf,
    /// The pixels of the frame are uploaded.
    CpuUpload,
}

/// The way that a frame takes, or why there is none: its DMA-BUF where that has
/// planes, else its pixels.
pub open spec fn import_path(frame: CapturedView) -> Result<ImportPath, Seq<char>> {
    match frame.gpu_handle {
        Some(HandleView::DmaBuf { planes, .. }) => if planes.len() > 0 {
            Ok(ImportPath::DmaBuf)
        } else if frame.data.len() > 0 {
            Ok(ImportPath::CpuUpload)
        } else {
            Err("DMA-BUF handle has no planes"@)
        },
        Some(HandleView::DxgiSharedTexture(_)) => Err(
            "DXGI shared texture cannot be imported on Linux"@,
        ),
        None => if frame.data.len() > 0 {
            Ok(ImportPath::CpuUpload)
        } else {
            Err("frame has neither a GPU handle nor CPU pixel data"@)
        },
    }
}

/// Decides how a frame is brought into graphics memory.
pub fn classify_frame(frame: &CapturedFrame) -> (result: Result<ImportPath, FluxError>)
    ensures
        match import_path(frame@) {
            Ok(path) => result matches Ok(chosen) && chosen == path,
            Err(reason) => result matches Err(e) && e@ == ErrorView::Gpu(reason),
        },
{
    match &frame.gpu_handle {
        Some(GpuFrameHandle::DmaBuf(handle)) => if handle.planes.len() > 0 {
            Ok(ImportPath::DmaBuf)
        } else if frame.data.len() > 0 {
            Ok(ImportPath::CpuUpload)
        } else {
            Err(FluxError::Gpu("DMA-BUF handle has no planes".to_string()))
        },
        Some(GpuFrameHandle::DxgiSharedTexture(_)) => Err(
            FluxError::Gpu("DXGI shared texture cannot be imported on Linux".to_string()),
        ),
        None => if frame.data.len() > 0 {
            Ok(ImportPath::CpuUpload)
        } else {
            Err(FluxError::Gpu("frame has neither a GPU handle nor CPU pixel data".to_string()))
        },
    }
}

/// A backend that brings frames into its own graphics memory.
pub trait GpuFrameImport: Sized {
    /// A surface of the backend.
    type Surface;

    /// What taking over a DMA-BUF may leave and give; anything, where a backend
    /// does not say.
    open spec fn dmabuf_imported(
        self,
        handle: DmaBufHandle,
        after: Self,
        result: Result<Self::Surface, FluxError>,
    ) -> bool {
        true
    }

    /// What uploading the pixels of a frame may leave and give; anything, where a
    /// backend does not say.
    open spec fn cpu_uploaded(
        self,
        frame: CapturedFrame,
        after: Self,
        result: Result<Self::Surface, FluxError>,
    ) -> bool {
        true
    }

    /// Takes over a DMA-BUF without a copy.
    fn import_dmabuf(&mut self, handle: &DmaBufHandle) -> (result: Result<Self::Surface, FluxError>)
        ensures
            old(self).dmabuf_imported(*handle, *final(self), result),
    ;

    /// Uploads the pixels of a frame.
    fn upload_cpu(&mut self, frame: &CapturedFrame) -> (result: Result<Self::Surface, FluxError>)
        ensures
            old(self).cpu_uploaded(*frame, *final(self), result),
    ;

    /// Brings a frame into graphics memory on the way that it takes. A frame
    /// without a way leaves the backend as it was.
    fn import(&mut self, frame: &CapturedFrame) -> (result: Result<Self::Surface, FluxError>)
        ensures
            match import_path(frame@) {
                Ok(ImportPath::DmaBuf) => frame.gpu_handle matches Some(
                    GpuFrameHandle::DmaBuf(handle),
                ) && old(self).dmabuf_imported(handle, *final(self), result),
                Ok(ImportPath::CpuUpload) => old(self).cpu_uploaded(*frame, *final(self), result),
                Err(reason) => *final(self) == *old(self) && (result matches Err(e) && e@
                    == ErrorView::Gpu(reason)),
            },
    {
        match classify_frame(frame) {
            Err(e) => Err(e),
            Ok(ImportPath::CpuUpload) => self.upload_cpu(frame),
            Ok(ImportPath::DmaBuf) => match &frame.gpu_handle {
                Some(GpuFrameHandle::DmaBuf(handle)) => self.import_dmabuf(handle),
                _ => self.upload_cpu(frame),
            },
        }
    }
}

/// A DMA-BUF with planes is taken over, pixels are uploaded where there is no such
/// buffer, and a frame with neither, or with a shared texture, has no way.
pub proof fn law_ways_of_frames(frame: CapturedView)
    ensures
        import_path(frame) == Ok::<ImportPath, Seq<char>>(ImportPath::DmaBuf) <==> (
        frame.gpu_handle matches Some(HandleView::DmaBuf { planes, .. }) && planes.len() > 0),
        frame.gpu_handle is None && frame.data.len() > 0 ==> import_path(frame) == Ok::<
            ImportPath,
            Seq<char>,
        >(ImportPath::CpuUpload),
        frame.gpu_handle is None && frame.data.len() == 0 ==> import_path(frame) == Err::<
            ImportPath,
            Seq<char>,
        >("frame has neither a GPU handle nor CPU pixel data"@),
        frame.gpu_handle matches Some(HandleView::DmaBuf { planes, .. }) && planes.len() == 0
            && frame.data.len() > 0 ==> import_path(frame) == Ok::<ImportPath, Seq<char>>(
            ImportPath::CpuUpload,
        ),
        frame.gpu_handle matches Some(HandleView::DmaBuf { planes, .. }) && planes.len() == 0
            && frame.data.len() == 0 ==> import_path(frame) == Err::<ImportPath, Seq<char>>(
            "DMA-BUF handle has no planes"@,
        ),
        frame.gpu_handle matches Some(HandleView::DxgiSharedTexture(_)) ==> import_path(frame)
            == Err::<ImportPath, Seq<char>>("DXGI shared texture cannot be imported on Linux"@),
{
}

} // verus!
