//! Negotiation of a session, on the side of the host.
//!
//! The client says hello and is welcomed or rejected; it may have to pair; then
//! it asks for a session and gets one.

use vstd::prelude::*;
use vstd::slice::slice_to_vec;

use crate::error::{ErrorView, FluxError};
use crate::ids::{is_random_id, random_id};
use crate::protocol::messages::{
    HelloMessage, HelloView, MessagePayload, PairResultMessage, PinSubmitMessage,
    SessionAcceptedMessage, SessionRejectedMessage, SessionRequestMessage, WelcomeMessage,
};
use crate::protocol::version::{is_compatible, MIN_COMPATIBLE_VERSION, PROTOCOL_VERSION};
use crate::text::{decimal, digit_char, hex, push_decimal, push_hex};
use crate::types::{codec_text, AudioCodec, Resolution, VideoCodec};

verus! {

/// Port of the video.
pub const VIDEO_RTP_PORT: u16 = 47998;

/// Port of the input events.
pub const INPUT_PORT: u16 = 47999;

/// Port of the audio.
pub const AUDIO_RTP_PORT: u16 = 48000;

/// How far a negotiation got.
#[derive(Debug)]
enum NegotiationState {
    AwaitingHello,
    AwaitingPin,
    AwaitingSessionRequest { client_hello: HelloMessage },
    Established,
    Failed(String),
}

/// How far a negotiation got, with sequences for texts and lists.
#[verifier::ext_equal]
pub enum Phase {
    AwaitingHello,
    AwaitingPin,
    AwaitingSessionRequest { client_hello: HelloView },
    Established,
    Failed(Seq<char>),
}

/// A text in quotes, with what cannot be shown written as an escape.
pub uninterp spec fn quoted(text: Seq<char>) -> Seq<char>;

/// The `Debug` form of a string: it depends on the string alone.
#[verifier::external_body]
fn quote(text: &str) -> (form: String)
    ensures
        form@ == quoted(text@),
{
    format!("{:?}", text)
}

/// The codecs from position `from` on, with a comma before each but the first.
pub open spec fn codecs_text(codecs: Seq<VideoCodec>, from: int) -> Seq<char>
    decreases codecs.len() - from,
{
    if from >= codecs.len() {
        Seq::empty()
    } else if from == 0 {
        codec_text(codecs[from]) + codecs_text(codecs, from + 1)
    } else {
        ", "@ + codec_text(codecs[from]) + codecs_text(codecs, from + 1)
    }
}

/// The text of a client that connects.
pub open spec fn hello_text(hello: HelloView) -> Seq<char> {
    "HelloMessage { protocol_version: "@ + decimal(hello.protocol_version as nat)
        + ", client_name: "@ + quoted(hello.client_name) + ", supported_codecs: ["@ + codecs_text(
        hello.supported_codecs,
        0,
    ) + "], max_resolution: Resolution { width: "@ + decimal(hello.max_resolution.width as nat)
        + ", height: "@ + decimal(hello.max_resolution.height as nat) + " }, max_fps: "@ + decimal(
        hello.max_fps as nat,
    ) + ", supports_hdr: "@ + (if hello.supports_hdr {
        "true"@
    } else {
        "false"@
    }) + " }"@
}

/// The text of how far a negotiation got.
pub open spec fn phase_text(phase: Phase) -> Seq<char> {
    match phase {
        Phase::AwaitingHello => "AwaitingHello"@,
        Phase::AwaitingPin => "AwaitingPin"@,
        Phase::AwaitingSessionRequest { client_hello } => "AwaitingSessionRequest { client_hello: "@
            + hello_text(client_hello) + " }"@,
        Phase::Established => "Established"@,
        Phase::Failed(reason) => "Failed("@ + quoted(reason) + ")"@,
    }
}

fn push_codecs(out: &mut String, codecs: &Vec<VideoCodec>)
    ensures
        final(out)@ == old(out)@ + codecs_text(codecs@, 0),
{
    let ghost before = out@;
    let mut i: usize = 0;
    while i < codecs.len()
        invariant
            i <= codecs@.len(),
            out@ + codecs_text(codecs@, i as int) =~= before + codecs_text(codecs@, 0),
        decreases codecs@.len() - i,
    {
        if i > 0 {
            out.append(", ");
        }
        out.append(codecs[i].name());
        i = i + 1;
    }
    assert(out@ =~= before + codecs_text(codecs@, 0));
}

fn describe_hello(hello: &HelloMessage) -> (text: String)
    ensures
        text@ == hello_text(hello@),
{
    let mut text = "HelloMessage { protocol_version: ".to_string();
    push_decimal(&mut text, hello.protocol_version as u64);
    text.append(", client_name: ");
    text.append(quote(hello.client_name.as_str()).as_str());
    text.append(", supported_codecs: [");
    push_codecs(&mut text, &hello.supported_codecs);
    text.append("], max_resolution: Resolution { width: ");
    push_decimal(&mut text, hello.max_resolution.width as u64);
    text.append(", height: ");
    push_decimal(&mut text, hello.max_resolution.height as u64);
    text.append(" }, max_fps: ");
    push_decimal(&mut text, hello.max_fps as u64);
    text.append(", supports_hdr: ");
    text.append(
        if hello.supports_hdr {
            "true"
        } else {
            "false"
        },
    );
    text.append(" }");
    text
}

/// The digits of bytes, two for each.
pub open spec fn hex_text(data: Seq<u8>) -> Seq<char>
    decreases data.len(),
{
    if data.len() == 0 {
        Seq::empty()
    } else {
        hex_text(data.drop_last()) + hex(data.last() as nat, 2)
    }
}

/// Writes bytes in hexadecimal digits.
pub fn hex_encode(data: &[u8]) -> (text: String)
    ensures
        text@ == hex_text(data@),
{
    let mut text = "".to_string();
    proof {
        reveal_strlit("");
    }
    assert(data@.take(0) =~= Seq::empty());
    assert(text@ =~= hex_text(data@.take(0)));
    for i in 0..data.len()
        invariant
            text@ == hex_text(data@.take(i as int)),
    {
        push_hex(&mut text, data[i] as u64, 2);
        assert(data@.take(i + 1).drop_last() =~= data@.take(i as int));
    }
    assert(data@.take(data@.len() as int) =~= data@);
    text
}

/// The eight bytes of a number, the low one first.
pub open spec fn le_bytes(n: u64) -> Seq<u8> {
    seq![
        (n % 256) as u8,
        (n / 0x100 % 256) as u8,
        (n / 0x1_0000 % 256) as u8,
        (n / 0x100_0000 % 256) as u8,
        (n / 0x1_0000_0000 % 256) as u8,
        (n / 0x100_0000_0000 % 256) as u8,
        (n / 0x1_0000_0000_0000 % 256) as u8,
        (n / 0x100_0000_0000_0000) as u8,
    ]
}

/// The key out of a hash: its bytes from the low one on, then from the high one on.
pub open spec fn key_of(hash: u64) -> Seq<u8> {
    le_bytes(hash) + le_bytes(hash).reverse()
}

/// The key of a session, out of a hash.
pub fn key_bytes(hash: u64) -> (key: Vec<u8>)
    ensures
        key@ == key_of(hash),
{
    let mut key: Vec<u8> = vec![
        (hash % 256) as u8,
        (hash / 0x100 % 256) as u8,
        (hash / 0x1_0000 % 256) as u8,
        (hash / 0x100_0000 % 256) as u8,
        (hash / 0x1_0000_0000 % 256) as u8,
        (hash / 0x100_0000_0000 % 256) as u8,
        (hash / 0x1_0000_0000_0000 % 256) as u8,
        (hash / 0x100_0000_0000_0000) as u8,
    ];
    assert(key@ =~= le_bytes(hash));
    let mut place: usize = 8;
    while place > 0
        invariant
            place <= 8,
            key@ == le_bytes(hash) + le_bytes(hash).reverse().take(8 - place),
        decreases place,
    {
        place = place - 1;
        let byte: u8 = key[place];
        assert(byte == le_bytes(hash)[place as int]);
        key.push(byte);
        assert(key@ =~= le_bytes(hash) + le_bytes(hash).reverse().take(8 - place));
    }
    assert(key@ =~= key_of(hash));
    key
}

/// Whether messages are one rejection for a version.
pub open spec fn rejects(responses: Seq<MessagePayload>, version: u32) -> bool {
    &&& responses.len() == 1
    &&& responses[0] matches MessagePayload::SessionRejected(rejected) && rejected.reason@
        == "protocol version "@ + decimal(version as nat) + " not compatible (need >= "@ + decimal(
        MIN_COMPATIBLE_VERSION as nat,
    ) + ")"@
}

/// Whether messages are one welcome for a client.
pub open spec fn welcomes(responses: Seq<MessagePayload>, hello: HelloView) -> bool {
    &&& responses.len() == 1
    &&& responses[0] matches MessagePayload::Welcome(welcome) && {
        &&& welcome.protocol_version == PROTOCOL_VERSION
        &&& welcome.server_name@ == "Flux Host"@
        &&& welcome.available_codecs@ == hello.supported_codecs
        &&& welcome.available_audio_codecs@ == seq![AudioCodec::Opus]
        &&& welcome.max_resolution == (Resolution { width: 3840, height: 2160 })
        &&& !welcome.is_paired
    }
}

/// Whether messages are one success of pairing.
pub open spec fn pairs(responses: Seq<MessagePayload>) -> bool {
    &&& responses.len() == 1
    &&& responses[0] matches MessagePayload::PairResult(result) && result.success
        && result.message@ == "Paired successfully"@
}

/// Whether messages are one acceptance of a session, as it was asked for.
pub open spec fn accepts(
    responses: Seq<MessagePayload>,
    request: SessionRequestMessage,
    session_id: u128,
    hash: u64,
) -> bool {
    &&& responses.len() == 1
    &&& responses[0] matches MessagePayload::SessionAccepted(accepted) && {
        &&& accepted.session_id == session_id
        &&& accepted.video_codec == request.video_codec
        &&& accepted.resolution == request.resolution
        &&& accepted.fps == request.fps
        &&& accepted.video_bitrate_kbps == request.video_bitrate_kbps
        &&& accepted.video_rtp_port == VIDEO_RTP_PORT
        &&& accepted.audio_rtp_port == AUDIO_RTP_PORT
        &&& accepted.input_port == INPUT_PORT
        &&& accepted.control_key@ == hex_text(key_of(hash))
    }
}

/// A client of which only the name is known.
pub open spec fn paired_client(name: Seq<char>) -> HelloView {
    HelloView {
        protocol_version: PROTOCOL_VERSION,
        client_name: name,
        supported_codecs: Seq::empty(),
        max_resolution: Resolution { width: 1920, height: 1080 },
        max_fps: 60,
        supports_hdr: false,
    }
}

/// How far a negotiation gets with a message; it stays where it is where the
/// message does not fit.
pub open spec fn next_phase(phase: Phase, message: MessagePayload) -> Phase {
    match (phase, message) {
        (Phase::AwaitingHello, MessagePayload::Hello(hello)) => if MIN_COMPATIBLE_VERSION
            <= hello.protocol_version <= PROTOCOL_VERSION {
            Phase::AwaitingSessionRequest { client_hello: hello@ }
        } else {
            Phase::Failed("incompatible protocol version"@)
        },
        (Phase::AwaitingPin, MessagePayload::PinSubmit(pin)) => Phase::AwaitingSessionRequest {
            client_hello: paired_client(pin.client_name@),
        },
        (
            Phase::AwaitingSessionRequest { .. },
            MessagePayload::SessionRequest(_),
        ) => Phase::Established,
        _ => phase,
    }
}

/// Whether a message fits into a phase.
pub open spec fn is_expected(phase: Phase, message: MessagePayload) -> bool {
    match (phase, message) {
        (Phase::AwaitingHello, MessagePayload::Hello(_)) => true,
        (Phase::AwaitingPin, MessagePayload::PinSubmit(_)) => true,
        (Phase::AwaitingSessionRequest { .. }, MessagePayload::SessionRequest(_)) => true,
        _ => false,
    }
}

/// Whether a reply is the right one to a message that fits into a phase.
pub open spec fn answers(
    responses: Seq<MessagePayload>,
    message: MessagePayload,
    session_id: u128,
    hash: u64,
) -> bool {
    match message {
        MessagePayload::Hello(hello) => if MIN_COMPATIBLE_VERSION <= hello.protocol_version
            <= PROTOCOL_VERSION {
            welcomes(responses, hello@)
        } else {
            rejects(responses, hello.protocol_version)
        },
        MessagePayload::PinSubmit(_) => pairs(responses),
        MessagePayload::SessionRequest(request) => accepts(responses, request, session_id, hash),
        _ => false,
    }
}

/// A negotiation, on the side of the host.
#[derive(Debug)]
pub struct SessionNegotiation {
    state: NegotiationState,
}

impl View for SessionNegotiation {
    type V = Phase;

    closed spec fn view(&self) -> Phase {
        match self.state {
            NegotiationState::AwaitingHello => Phase::AwaitingHello,
            NegotiationState::AwaitingPin => Phase::AwaitingPin,
            NegotiationState::AwaitingSessionRequest { client_hello } => {
                Phase::AwaitingSessionRequest { client_hello: client_hello@ }
            },
            NegotiationState::Established => Phase::Established,
            NegotiationState::Failed(reason) => Phase::Failed(reason@),
        }
    }
}

impl SessionNegotiation {
    /// A negotiation that waits for a client.
    pub fn new() -> (negotiation: Self)
        ensures
            negotiation@ == Phase::AwaitingHello,
    {
        SessionNegotiation { state: NegotiationState::AwaitingHello }
    }

    /// A negotiation that waits for the PIN of a client.
    pub fn awaiting_pin() -> (negotiation: Self)
        ensures
            negotiation@ == Phase::AwaitingPin,
    {
        SessionNegotiation { state: NegotiationState::AwaitingPin }
    }

    /// Takes in a message and gives the reply. A session gets a fresh identifier;
    /// its key comes out of `clock_hash`.
    pub fn process(&mut self, msg: &MessagePayload, clock_hash: u64) -> (result: Result<
        Vec<MessagePayload>,
        FluxError,
    >)
        ensures
            final(self)@ == next_phase(old(self)@, *msg),
            if is_expected(old(self)@, *msg) {
                result matches Ok(responses) && exists|id: u128|
                    is_random_id(id) && answers(responses@, *msg, id, clock_hash)
            } else {
                result matches Err(e) && e@ == ErrorView::Protocol(
                    "unexpected message in state "@ + phase_text(old(self)@),
                )
            },
    {
        let id: u128 = random_id();
        let result: Result<Vec<MessagePayload>, FluxError> = self.respond(msg, id, clock_hash);
        assert(is_random_id(id));
        result
    }

    /// Takes in a message and gives the reply, with the identifier that a session
    /// gets.
    pub fn respond(&mut self, msg: &MessagePayload, session_id: u128, clock_hash: u64) -> (result: Result<
        Vec<MessagePayload>,
        FluxError,
    >)
        ensures
            final(self)@ == next_phase(old(self)@, *msg),
            if is_expected(old(self)@, *msg) {
                result matches Ok(responses) && answers(responses@, *msg, session_id, clock_hash)
            } else {
                result matches Err(e) && e@ == ErrorView::Protocol(
                    "unexpected message in state "@ + phase_text(old(self)@),
                )
            },
    {
        match (&self.state, msg) {
            (NegotiationState::AwaitingHello, MessagePayload::Hello(hello)) => Ok(
                self.handle_hello(hello),
            ),
            (NegotiationState::AwaitingPin, MessagePayload::PinSubmit(pin)) => Ok(
                self.handle_pin_submit(pin),
            ),
            (
                NegotiationState::AwaitingSessionRequest { .. },
                MessagePayload::SessionRequest(request),
            ) => Ok(self.handle_session_request(request, session_id, clock_hash)),
            _ => Err(FluxError::Protocol(self.unexpected())),
        }
    }

    fn unexpected(&self) -> (text: String)
        ensures
            text@ == "unexpected message in state "@ + phase_text(self@),
    {
        let mut text = "unexpected message in state ".to_string();
        match &self.state {
            NegotiationState::AwaitingHello => {
                text.append("AwaitingHello");
            },
            NegotiationState::AwaitingPin => {
                text.append("AwaitingPin");
            },
            NegotiationState::AwaitingSessionRequest { client_hello } => {
                text.append("AwaitingSessionRequest { client_hello: ");
                text.append(describe_hello(client_hello).as_str());
                text.append(" }");
            },
            NegotiationState::Established => {
                text.append("Established");
            },
            NegotiationState::Failed(reason) => {
                text.append("Failed(");
                text.append(quote(reason.as_str()).as_str());
                text.append(")");
            },
        }
        assert(text@ =~= "unexpected message in state "@ + phase_text(self@));
        text
    }

    fn handle_hello(&mut self, hello: &HelloMessage) -> (responses: Vec<MessagePayload>)
        ensures
            if MIN_COMPATIBLE_VERSION <= hello.protocol_version <= PROTOCOL_VERSION {
                &&& final(self)@ == (Phase::AwaitingSessionRequest { client_hello: hello@ })
                &&& welcomes(responses@, hello@)
            } else {
                &&& final(self)@ == Phase::Failed("incompatible protocol version"@)
                &&& rejects(responses@, hello.protocol_version)
            },
    {
        if !is_compatible(hello.protocol_version) {
            self.state = NegotiationState::Failed("incompatible protocol version".to_string());
            let mut reason = "protocol version ".to_string();
            push_decimal(&mut reason, hello.protocol_version as u64);
            reason.append(" not compatible (need >= ");
            push_decimal(&mut reason, MIN_COMPATIBLE_VERSION as u64);
            reason.append(")");
            return vec![MessagePayload::SessionRejected(SessionRejectedMessage { reason })];
        }
        let audio: Vec<AudioCodec> = vec![AudioCodec::Opus];
        assert(audio@ =~= seq![AudioCodec::Opus]);
        let welcome = WelcomeMessage {
            protocol_version: PROTOCOL_VERSION,
            server_name: "Flux Host".to_string(),
            available_codecs: slice_to_vec(hello.supported_codecs.as_slice()),
            available_audio_codecs: audio,
            max_resolution: Resolution::new(3840, 2160),
            is_paired: false,
        };
        self.state = NegotiationState::AwaitingSessionRequest { client_hello: hello.duplicate() };
        vec![MessagePayload::Welcome(welcome)]
    }

    fn handle_pin_submit(&mut self, pin_msg: &PinSubmitMessage) -> (responses: Vec<MessagePayload>)
        ensures
            final(self)@ == (Phase::AwaitingSessionRequest {
                client_hello: paired_client(pin_msg.client_name@),
            }),
            pairs(responses@),
    {
        self.state = NegotiationState::AwaitingSessionRequest {
            client_hello: HelloMessage {
                protocol_version: PROTOCOL_VERSION,
                client_name: pin_msg.client_name.as_str().to_string(),
                supported_codecs: Vec::new(),
                max_resolution: Resolution::new(1920, 1080),
                max_fps: 60,
                supports_hdr: false,
            },
        };
        vec![
            MessagePayload::PairResult(
                PairResultMessage { success: true, message: "Paired successfully".to_string() },
            ),
        ]
    }

    fn handle_session_request(
        &mut self,
        req: &SessionRequestMessage,
        session_id: u128,
        clock_hash: u64,
    ) -> (responses: Vec<MessagePayload>)
        ensures
            final(self)@ == Phase::Established,
            accepts(responses@, *req, session_id, clock_hash),
    {
        let key: Vec<u8> = key_bytes(clock_hash);
        let accepted = SessionAcceptedMessage {
            session_id,
            video_codec: req.video_codec,
            resolution: req.resolution,
            fps: req.fps,
            video_bitrate_kbps: req.video_bitrate_kbps,
            video_rtp_port: VIDEO_RTP_PORT,
            audio_rtp_port: AUDIO_RTP_PORT,
            input_port: INPUT_PORT,
            control_key: hex_encode(key.as_slice()),
        };
        self.state = NegotiationState::Established;
        vec![MessagePayload::SessionAccepted(accepted)]
    }

    /// Whether a session is settled.
    pub fn is_established(&self) -> (established: bool)
        ensures
            established == (self@ == Phase::Established),
    {
        match self.state {
            NegotiationState::Established => true,
            _ => false,
        }
    }
}

/// A settled session and a failed negotiation stay what they are.
pub proof fn law_negotiation_ends(phase: Phase, message: MessagePayload)
    requires
        phase is Established || phase is Failed,
    ensures
        next_phase(phase, message) == phase,
        !is_expected(phase, message),
{
}

/// A client of a version that is understood, which then asks for a session, gets
/// one.
pub proof fn law_handshake_establishes(hello: HelloMessage, request: SessionRequestMessage)
    requires
        MIN_COMPATIBLE_VERSION <= hello.protocol_version <= PROTOCOL_VERSION,
    ensures
        is_expected(Phase::AwaitingHello, MessagePayload::Hello(hello)),
        is_expected(
            next_phase(Phase::AwaitingHello, MessagePayload::Hello(hello)),
            MessagePayload::SessionRequest(request),
        ),
        next_phase(
            next_phase(Phase::AwaitingHello, MessagePayload::Hello(hello)),
            MessagePayload::SessionRequest(request),
        ) == Phase::Established,
{
}

/// A client of any other version never gets a session, whatever it says.
pub proof fn law_incompatible_client_is_refused(hello: HelloMessage, message: MessagePayload)
    requires
        !(MIN_COMPATIBLE_VERSION <= hello.protocol_version <= PROTOCOL_VERSION),
    ensures
        next_phase(
            next_phase(Phase::AwaitingHello, MessagePayload::Hello(hello)),
            message,
        ) is Failed,
{
}

/// A client that waits to say hello, to pair or to ask for a session gets on with
/// that message alone; with any other it stays where it is.
pub proof fn law_negotiation_steps(phase: Phase, message: MessagePayload)
    ensures
        is_expected(phase, message) <==> {
            ||| phase is AwaitingHello && message is Hello
            ||| phase is AwaitingPin && message is PinSubmit
            ||| phase is AwaitingSessionRequest && message is SessionRequest
        },
        !is_expected(phase, message) ==> next_phase(phase, message) == phase,
        phase is AwaitingHello ==> (message matches MessagePayload::Hello(hello) ==> if hello.protocol_version
            == 1 {
            next_phase(phase, message) == (Phase::AwaitingSessionRequest { client_hello: hello@ })
        } else {
            next_phase(phase, message) == Phase::Failed("incompatible protocol version"@)
        }),
        phase is AwaitingPin ==> (message matches MessagePayload::PinSubmit(pin) ==> next_phase(
            phase,
            message,
        ) == (Phase::AwaitingSessionRequest {
            client_hello: HelloView {
                protocol_version: 1,
                client_name: pin.client_name@,
                supported_codecs: Seq::empty(),
                max_resolution: Resolution { width: 1920, height: 1080 },
                max_fps: 60,
                supports_hdr: false,
            },
        })),
        phase is AwaitingSessionRequest && message is SessionRequest ==> next_phase(phase, message)
            == Phase::Established,
{
}

/// A client of version 1 is welcomed with the codecs that it named; one of another
/// version is told that it is rejected.
pub proof fn law_hellos_are_answered(
    responses: Seq<MessagePayload>,
    hello: HelloMessage,
    session_id: u128,
    hash: u64,
)
    requires
        answers(responses, MessagePayload::Hello(hello), session_id, hash),
    ensures
        responses.len() == 1,
        hello.protocol_version == 1 ==> (responses[0] matches MessagePayload::Welcome(welcome)
            && welcome.protocol_version == 1 && welcome.server_name@ == "Flux Host"@
            && welcome.available_codecs@ == hello.supported_codecs@
            && welcome.available_audio_codecs@.len() == 1 && welcome.available_audio_codecs@[0]
            == AudioCodec::Opus && welcome.max_resolution.width == 3840
            && welcome.max_resolution.height == 2160 && !welcome.is_paired),
        hello.protocol_version != 1 ==> (responses[0] matches MessagePayload::SessionRejected(
            rejected,
        ) && rejected.reason@ == "protocol version "@ + decimal(hello.protocol_version as nat)
            + " not compatible (need >= "@ + decimal(1) + ")"@),
{
}

/// A PIN is answered by one success.
pub proof fn law_pins_are_answered(
    responses: Seq<MessagePayload>,
    pin: PinSubmitMessage,
    session_id: u128,
    hash: u64,
)
    requires
        answers(responses, MessagePayload::PinSubmit(pin), session_id, hash),
    ensures
        responses.len() == 1,
        responses[0] matches MessagePayload::PairResult(result) && result.success
            && result.message@ == "Paired successfully"@,
{
}

/// A session is accepted as it was asked for, under its identifier, with the ports
/// 47998, 48000 and 47999 for video, audio and input, and with 32 digits of key.
pub proof fn law_requests_are_answered(
    responses: Seq<MessagePayload>,
    request: SessionRequestMessage,
    session_id: u128,
    hash: u64,
)
    requires
        answers(responses, MessagePayload::SessionRequest(request), session_id, hash),
    ensures
        responses.len() == 1,
        responses[0] matches MessagePayload::SessionAccepted(accepted) && accepted.session_id
            == session_id && accepted.video_codec == request.video_codec && accepted.resolution
            == request.resolution && accepted.fps == request.fps && accepted.video_bitrate_kbps
            == request.video_bitrate_kbps && accepted.video_rtp_port == 47998
            && accepted.audio_rtp_port == 48000 && accepted.input_port == 47999
            && accepted.control_key@ == hex_text(key_of(hash)) && accepted.control_key@.len() == 32,
{
    law_keys_read_the_same_both_ways(hash);
    if key_of(hash).len() > 0 {
        law_bytes_have_two_digits(key_of(hash), 0);
    }
}

/// The bytes of a key, from the low one on, are those of its hash; from the end
/// backwards they are the same.
pub proof fn law_keys_read_the_same_both_ways(hash: u64)
    ensures
        ({
            let key = key_of(hash);
            &&& key.len() == 16
            &&& hash == key[0] + 0x100 * key[1] + 0x1_0000 * key[2] + 0x100_0000 * key[3]
                + 0x1_0000_0000 * key[4] + 0x100_0000_0000 * key[5] + 0x1_0000_0000_0000 * key[6]
                + 0x100_0000_0000_0000 * key[7]
            &&& forall|i: int| 0 <= i < 16 ==> #[trigger] key[i] == key[15 - i]
        }),
{
    lemma_key_is_mirrored(hash);
    lemma_places_of_bytes(hash as int);
    let key = key_of(hash);
    let bytes = le_bytes(hash);
    assert(key[0] == bytes[0] && key[1] == bytes[1] && key[2] == bytes[2] && key[3] == bytes[3]);
    assert(key[4] == bytes[4] && key[5] == bytes[5] && key[6] == bytes[6] && key[7] == bytes[7]);
}

proof fn lemma_key_is_mirrored(hash: u64)
    ensures
        key_of(hash).len() == 16,
        forall|i: int| 0 <= i < 16 ==> #[trigger] key_of(hash)[i] == key_of(hash)[15 - i],
{
    let key = key_of(hash);
    let bytes = le_bytes(hash);
    assert forall|i: int| 0 <= i < 16 implies #[trigger] key[i] == key[15 - i] by {
        if i < 8 {
            assert(key[i] == bytes[i]);
            assert(key[15 - i] == bytes.reverse()[7 - i]);
        } else {
            assert(key[i] == bytes.reverse()[i - 8]);
            assert(key[15 - i] == bytes[15 - i]);
        }
    }
}

proof fn lemma_places_of_bytes(n: int)
    requires
        0 <= n < 0x1_0000_0000_0000_0000,
    ensures
        n == n % 256 + 0x100 * (n / 0x100 % 256) + 0x1_0000 * (n / 0x1_0000 % 256) + 0x100_0000 * (n
            / 0x100_0000 % 256) + 0x1_0000_0000 * (n / 0x1_0000_0000 % 256) + 0x100_0000_0000 * (n
            / 0x100_0000_0000 % 256) + 0x1_0000_0000_0000 * (n / 0x1_0000_0000_0000 % 256)
            + 0x100_0000_0000_0000 * (n / 0x100_0000_0000_0000),
        0 <= n / 0x100_0000_0000_0000 < 256,
{
    assert(n / 0x1_0000 == n / 0x100 / 0x100);
    assert(n / 0x100_0000 == n / 0x1_0000 / 0x100);
    assert(n / 0x1_0000_0000 == n / 0x100_0000 / 0x100);
    assert(n / 0x100_0000_0000 == n / 0x1_0000_0000 / 0x100);
    assert(n / 0x1_0000_0000_0000 == n / 0x100_0000_0000 / 0x100);
    assert(n / 0x100_0000_0000_0000 == n / 0x1_0000_0000_0000 / 0x100);
}

/// A byte has its two digits at twice its place, the high one first.
pub proof fn law_bytes_have_two_digits(data: Seq<u8>, i: int)
    requires
        0 <= i < data.len(),
    ensures
        hex_text(data).len() == 2 * data.len(),
        hex_text(data)[2 * i] == digit_char((data[i] / 16) as int),
        hex_text(data)[2 * i + 1] == digit_char((data[i] % 16) as int),
    decreases data.len(),
{
    let before = data.drop_last();
    let last = data.last() as nat;
    reveal_with_fuel(hex, 3);
    assert(hex(last, 2) =~= seq![
        digit_char((last / 16 % 16) as int),
        digit_char((last % 16) as int),
    ]);
    if before.len() > 0 {
        law_bytes_have_two_digits(
            before,
            if i < before.len() {
                i
            } else {
                0
            },
        );
    }
    assert(hex_text(data) == hex_text(before) + hex(last, 2));
}

/// The texts of the phases.
pub proof fn law_phases_have_their_texts(hello: HelloView, reason: Seq<char>)
    ensures
        phase_text(Phase::AwaitingHello) == "AwaitingHello"@,
        phase_text(Phase::AwaitingPin) == "AwaitingPin"@,
        phase_text(Phase::Established) == "Established"@,
        phase_text(Phase::Failed(reason)) == "Failed("@ + quoted(reason) + ")"@,
        phase_text(Phase::AwaitingSessionRequest { client_hello: hello })
            == "AwaitingSessionRequest { client_hello: "@ + (
        "HelloMessage { protocol_version: "@ + decimal(hello.protocol_version as nat)
            + ", client_name: "@ + quoted(hello.client_name) + ", supported_codecs: ["@
            + codecs_text(hello.supported_codecs, 0) + "], max_resolution: Resolution { width: "@
            + decimal(hello.max_resolution.width as nat) + ", height: "@ + decimal(
            hello.max_resolution.height as nat,
        ) + " }, max_fps: "@ + decimal(hello.max_fps as nat) + ", supports_hdr: "@ + (
        if hello.supports_hdr {
            "true"@
        } else {
            "false"@
        }) + " }"@) + " }"@,
{
}

/// A list of codecs has their names with a comma and a blank between them.
pub proof fn law_codecs_are_listed(codecs: Seq<VideoCodec>, last: VideoCodec)
    ensures
        codecs_text(Seq::empty(), 0) == Seq::<char>::empty(),
        codecs.len() == 0 ==> codecs_text(codecs.push(last), 0) == codec_text(last),
        codecs.len() > 0 ==> codecs_text(codecs.push(last), 0) == codecs_text(codecs, 0) + ", "@
            + codec_text(last),
{
    if codecs.len() == 0 {
        assert(codecs_text(codecs.push(last), 1) == Seq::<char>::empty());
        assert(codecs_text(codecs.push(last), 0) =~= codec_text(last));
    } else {
        lemma_codecs_text_push(codecs, last, 0);
    }
}

proof fn lemma_codecs_text_push(codecs: Seq<VideoCodec>, last: VideoCodec, from: int)
    requires
        0 <= from <= codecs.len(),
        codecs.len() > 0,
    ensures
        codecs_text(codecs.push(last), from) == codecs_text(codecs, from) + ", "@ + codec_text(last),
    decreases codecs.len() - from,
{
    let all = codecs.push(last);
    if from == codecs.len() {
        assert(codecs_text(all, from + 1) == Seq::<char>::empty());
        assert(codecs_text(all, from) =~= codecs_text(codecs, from) + ", "@ + codec_text(last));
    } else {
        lemma_codecs_text_push(codecs, last, from + 1);
        assert(all[from] == codecs[from]);
        assert(codecs_text(all, from) =~= codecs_text(codecs, from) + ", "@ + codec_text(last));
    }
}

/// The ports of the streams.
pub proof fn law_ports()
    ensures
        VIDEO_RTP_PORT == 47998,
        INPUT_PORT == 47999,
        AUDIO_RTP_PORT == 48000,
{
}

/// Nothing has no digits.
pub proof fn law_no_bytes_no_digits()
    ensures
        hex_text(Seq::empty()).len() == 0,
{
}

} // verus!
