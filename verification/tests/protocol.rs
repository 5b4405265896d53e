//! The control protocol.

use flux::error::FluxError;
use flux::protocol::messages::{
    HelloMessage, Message, MessagePayload, PinSubmitMessage, SessionRequestMessage,
};
use flux::protocol::session::{hex_encode, key_bytes, SessionNegotiation};
use flux::protocol::version::{is_compatible, protocol_alpn};
use flux::types::{AudioCodec, ChromaSampling, DynamicRange, Resolution, VideoCodec};

fn hello(protocol_version: u32) -> MessagePayload {
    MessagePayload::Hello(HelloMessage {
        protocol_version,
        client_name: "couch \"1\"".to_string(),
        supported_codecs: vec![VideoCodec::H265, VideoCodec::H264],
        max_resolution: Resolution::new(2560, 1440),
        max_fps: 120,
        supports_hdr: true,
    })
}

fn request() -> MessagePayload {
    MessagePayload::SessionRequest(SessionRequestMessage {
        video_codec: VideoCodec::H265,
        resolution: Resolution::new(2560, 1440),
        fps: 120,
        video_bitrate_kbps: 30_000,
        dynamic_range: DynamicRange::Sdr,
        chroma_sampling: ChromaSampling::Yuv420,
        audio_codec: AudioCodec::Opus,
        audio_bitrate_kbps: 128,
        enable_input: true,
    })
}

#[test]
fn a_handshake_establishes_a_session() {
    let mut negotiation = SessionNegotiation::new();
    let replies = negotiation.process(&hello(1), 0).unwrap();
    match &replies[..] {
        [MessagePayload::Welcome(welcome)] => {
            assert_eq!(welcome.protocol_version, 1);
            assert_eq!(welcome.server_name, "Flux Host");
            assert_eq!(welcome.available_codecs, vec![VideoCodec::H265, VideoCodec::H264]);
            assert_eq!(welcome.available_audio_codecs, vec![AudioCodec::Opus]);
            assert_eq!(welcome.max_resolution, Resolution::new(3840, 2160));
            assert!(!welcome.is_paired);
        }
        other => panic!("{:?}", other),
    }
    assert!(!negotiation.is_established());
    let replies = negotiation.process(&request(), 0x0807060504030201).unwrap();
    match &replies[..] {
        [MessagePayload::SessionAccepted(accepted)] => {
            assert_eq!(accepted.video_codec, VideoCodec::H265);
            assert_eq!(accepted.fps, 120);
            assert_eq!(
                (accepted.video_rtp_port, accepted.audio_rtp_port, accepted.input_port),
                (47998, 48000, 47999)
            );
            assert_eq!(accepted.control_key, "01020304050607080807060504030201");
            assert_eq!(accepted.session_id >> 76 & 0xf, 4);
        }
        other => panic!("{:?}", other),
    }
    assert!(negotiation.is_established());
    match negotiation.process(&request(), 0) {
        Err(FluxError::Protocol(text)) => {
            assert_eq!(text, "unexpected message in state Established")
        }
        other => panic!("{:?}", other),
    }
}

#[test]
fn other_versions_are_rejected() {
    let mut negotiation = SessionNegotiation::new();
    let replies = negotiation.process(&hello(2), 0).unwrap();
    match &replies[..] {
        [MessagePayload::SessionRejected(rejected)] => {
            assert_eq!(rejected.reason, "protocol version 2 not compatible (need >= 1)")
        }
        other => panic!("{:?}", other),
    }
    match negotiation.process(&hello(1), 0) {
        Err(FluxError::Protocol(text)) => {
            assert_eq!(
                text,
                "unexpected message in state Failed(\"incompatible protocol version\")"
            )
        }
        other => panic!("{:?}", other),
    }
}

#[test]
fn clients_are_paired_by_pin() {
    let mut negotiation = SessionNegotiation::awaiting_pin();
    let pin = MessagePayload::PinSubmit(PinSubmitMessage {
        pin: "1234".to_string(),
        client_name: "couch".to_string(),
    });
    match &negotiation.process(&pin, 0).unwrap()[..] {
        [MessagePayload::PairResult(result)] => {
            assert!(result.success);
            assert_eq!(result.message, "Paired successfully");
        }
        other => panic!("{:?}", other),
    }
    assert!(negotiation.respond(&request(), 5, 0).is_ok());
    assert!(negotiation.is_established());
}

#[test]
fn unexpected_messages_are_told_with_the_state() {
    let mut negotiation = SessionNegotiation::new();
    match negotiation.process(&MessagePayload::RequestIdr, 0) {
        Err(FluxError::Protocol(text)) => {
            assert_eq!(text, "unexpected message in state AwaitingHello")
        }
        other => panic!("{:?}", other),
    }
    negotiation.process(&hello(1), 0).unwrap();
    match negotiation.process(&hello(1), 0) {
        Err(FluxError::Protocol(text)) => assert_eq!(
            text,
            "unexpected message in state AwaitingSessionRequest { client_hello: HelloMessage { \
             protocol_version: 1, client_name: \"couch \\\"1\\\"\", supported_codecs: [H265, H264], \
             max_resolution: Resolution { width: 2560, height: 1440 }, max_fps: 120, \
             supports_hdr: true } }"
        ),
        other => panic!("{:?}", other),
    }
}

#[test]
fn versions_are_compared() {
    assert!(!is_compatible(0));
    assert!(is_compatible(1));
    assert!(!is_compatible(2));
    assert_eq!(protocol_alpn(), b"flux/1");
}

#[test]
fn messages_get_fresh_identifiers() {
    let first = Message::new(MessagePayload::PinRequired);
    let second = Message::new(MessagePayload::Ping { timestamp_ms: 1 });
    assert_ne!(first.id, second.id);
    assert_eq!(first.id >> 76 & 0xf, 4);
    assert_eq!(first.id >> 62 & 3, 2);
}

#[test]
fn bytes_are_written_in_hexadecimal() {
    assert_eq!(hex_encode(&[0x00, 0xff, 0x1a]), "00ff1a");
    assert_eq!(hex_encode(&[]), "");
    assert_eq!(
        key_bytes(0x0123456789abcdef),
        vec![
            0xef, 0xcd, 0xab, 0x89, 0x67, 0x45, 0x23, 0x01, 0x01, 0x23, 0x45, 0x67, 0x89, 0xab,
            0xcd, 0xef
        ]
    );
}
