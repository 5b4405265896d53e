//! The pipeline of one session.

use vstd::prelude::*;

use crate::error::FluxError;
use crate::server::session::SessionParams;

verus! {

/// The pipeline of one session. Nothing is attached to it.
#[derive(Debug)]
pub struct StreamingPipeline {
    running: bool,
}

impl StreamingPipeline {
    /// Whether the pipeline runs.
    pub closed spec fn is_running(self) -> bool {
        self.running
    }

    /// A pipeline that runs.
    pub fn new(_params: &SessionParams) -> (result: Result<Self, FluxError>)
        ensures
            result matches Ok(pipeline) && pipeline.is_running(),
    {
        Ok(StreamingPipeline { running: true })
    }

    /// Asks for a keyframe.
    pub fn request_idr(&self) {
    }

    /// Asks for another bitrate.
    pub fn set_bitrate(&self, _bitrate_kbps: u32) -> (result: Result<(), FluxError>)
        ensures
            result is Ok,
    {
        Ok(())
    }

    /// Stops the pipeline.
    pub fn stop(self) -> (result: Result<(), FluxError>)
        ensures
            result is Ok,
    {
        Ok(())
    }
}

} // verus!
