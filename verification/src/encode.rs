//! Video encoding: what encoders accept, and how frames are prepared for them.

pub mod amf;
pub mod backend;
pub mod color;
pub mod config;
pub mod ffmpeg;
pub mod ffmpeg_absent;
pub mod h264;
pub mod import;
pub mod nal;
pub mod nv12;
pub mod planes;
pub mod scale;
pub mod vaapi;
pub mod vulkan;
