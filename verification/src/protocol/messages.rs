//! Messages of the control protocol.

use vstd::prelude::*;
use vstd::slice::slice_to_vec;

use crate::ids::{is_random_id, random_id};
use crate::types::{AudioCodec, ChromaSampling, DynamicRange, Resolution, VideoCodec};

verus! {

/// A message: an identifier, by which a reply is matched with its request, and
/// what it says.
#[derive(Debug)]
pub struct Message {
    pub id: u128,
    pub payload: MessagePayload,
}

impl Message {
    /// A message under a fresh identifier.
    pub fn new(payload: MessagePayload) -> (message: Self)
        ensures
            message.payload == payload,
            is_random_id(message.id),
    {
        Message { id: random_id(), payload }
    }
}

/// What a message says.
#[derive(Debug)]
pub enum MessagePayload {
    /// Client to host: a connection is wanted.
    Hello(HelloMessage),
    /// Host to client: what the host can do.
    Welcome(WelcomeMessage),
    /// Host to client: a PIN is needed to pair.
    PinRequired,
    /// Client to host: the PIN.
    PinSubmit(PinSubmitMessage),
    /// Host to client: whether pairing succeeded.
    PairResult(PairResultMessage),
    /// Client to host: a session is wanted.
    SessionRequest(SessionRequestMessage),
    /// Host to client: the session, as it was settled.
    SessionAccepted(SessionAcceptedMessage),
    /// Host to client: there is no session.
    SessionRejected(SessionRejectedMessage),
    /// Client to host: a keyframe is wanted.
    RequestIdr,
    /// Client to host: another bitrate is wanted.
    BitrateUpdate(BitrateUpdateMessage),
    /// A sign of life.
    Ping { timestamp_ms: u64 },
    /// The answer to a sign of life.
    Pong { echo_timestamp_ms: u64 },
    /// The end of the session.
    SessionEnd { reason: String },
}

/// A client that connects.
#[derive(Debug)]
pub struct HelloMessage {
    pub protocol_version: u32,
    pub client_name: String,
    /// Codecs that the client can decode, the preferred one first.
    pub supported_codecs: Vec<VideoCodec>,
    pub max_resolution: Resolution,
    pub max_fps: u32,
    pub supports_hdr: bool,
}

/// A client that connects, with sequences for its name and codecs.
#[verifier::ext_equal]
pub struct HelloView {
    pub protocol_version: u32,
    pub client_name: Seq<char>,
    pub supported_codecs: Seq<VideoCodec>,
    pub max_resolution: Resolution,
    pub max_fps: u32,
    pub supports_hdr: bool,
}

impl View for HelloMessage {
    type V = HelloView;

    open spec fn view(&self) -> HelloView {
        HelloView {
            protocol_version: self.protocol_version,
            client_name: self.client_name@,
            supported_codecs: self.supported_codecs@,
            max_resolution: self.max_resolution,
            max_fps: self.max_fps,
            supports_hdr: self.supports_hdr,
        }
    }
}

impl HelloMessage {
    /// A copy of the message.
    pub fn duplicate(&self) -> (copy: Self)
        ensures
            copy@ == self@,
    {
        HelloMessage {
            protocol_version: self.protocol_version,
            client_name: self.client_name.as_str().to_string(),
            supported_codecs: slice_to_vec(self.supported_codecs.as_slice()),
            max_resolution: self.max_resolution,
            max_fps: self.max_fps,
            supports_hdr: self.supports_hdr,
        }
    }
}

/// A host that answers.
#[derive(Debug)]
pub struct WelcomeMessage {
    pub protocol_version: u32,
    pub server_name: String,
    pub available_codecs: Vec<VideoCodec>,
    pub available_audio_codecs: Vec<AudioCodec>,
    pub max_resolution: Resolution,
    pub is_paired: bool,
}

/// The PIN of a client.
#[derive(Debug)]
pub struct PinSubmitMessage {
    pub pin: String,
    pub client_name: String,
}

/// The end of pairing.
#[derive(Debug)]
pub struct PairResultMessage {
    pub success: bool,
    pub message: String,
}

/// A session as a client wants it.
#[derive(Debug, Clone, Copy, PartialEq, Eq, Structural)]
pub struct SessionRequestMessage {
    pub video_codec: VideoCodec,
    pub resolution: Resolution,
    pub fps: u32,
    pub video_bitrate_kbps: u32,
    pub dynamic_range: DynamicRange,
    pub chroma_sampling: ChromaSampling,
    pub audio_codec: AudioCodec,
    pub audio_bitrate_kbps: u32,
    pub enable_input: bool,
}

/// A session as it was settled.
#[derive(Debug)]
pub struct SessionAcceptedMessage {
    pub session_id: u128,
    pub video_codec: VideoCodec,
    pub resolution: Resolution,
    pub fps: u32,
    pub video_bitrate_kbps: u32,
    pub video_rtp_port: u16,
    pub audio_rtp_port: u16,
    pub input_port: u16,
    /// Key of the control messages, in hexadecimal digits.
    pub control_key: String,
}

/// Why there is no session.
#[derive(Debug)]
pub struct SessionRejectedMessage {
    pub reason: String,
}

/// Another bitrate.
#[derive(Debug, Clone, Copy, PartialEq, Eq, Structural)]
pub struct BitrateUpdateMessage {
    pub video_bitrate_kbps: u32,
}

/// A client is seen with its own fields.
pub proof fn law_hellos_are_seen(hello: HelloMessage)
    ensures
        hello@.protocol_version == hello.protocol_version,
        hello@.client_name == hello.client_name@,
        hello@.supported_codecs == hello.supported_codecs@,
        hello@.max_resolution == hello.max_resolution,
        hello@.max_fps == hello.max_fps,
        hello@.supports_hdr == hello.supports_hdr,
{
}

} // verus!
