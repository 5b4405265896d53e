//! Registration of the host with a relay.

use vstd::prelude::*;

use crate::ids::{hyphenated, id_text, is_random_id, random_id};
use crate::server::capture::capture_fps;
use crate::types::{backend_text, EncoderBackend, Resolution};

verus! {

/// What the host is doing.
#[derive(Debug)]
pub struct RuntimeStatus {
    pub display_name: Option<String>,
    pub encoder_backend: Option<String>,
    pub capture_width: u32,
    pub capture_height: u32,
    pub encode_width: u32,
    pub encode_height: u32,
    pub target_bitrate_kbps: u32,
}

impl Default for RuntimeStatus {
    /// Nothing is known yet.
    fn default() -> (status: Self)
        ensures
            status == (RuntimeStatus {
                display_name: None,
                encoder_backend: None,
                capture_width: 0,
                capture_height: 0,
                encode_width: 0,
                encode_height: 0,
                target_bitrate_kbps: 0,
            }),
    {
        RuntimeStatus {
            display_name: None,
            encoder_backend: None,
            capture_width: 0,
            capture_height: 0,
            encode_width: 0,
            encode_height: 0,
            target_bitrate_kbps: 0,
        }
    }
}

impl RuntimeStatus {
    /// Takes in which encoder was opened, for frames of which size, and the
    /// bitrate it aims at.
    pub fn encoder_opened(
        &mut self,
        captured: Resolution,
        encoded: Resolution,
        backend: EncoderBackend,
        target_bitrate_kbps: u32,
    )
        ensures
            final(self).display_name == old(self).display_name,
            final(self).encoder_backend matches Some(name) && name@ == backend_text(backend),
            final(self).capture_width == captured.width,
            final(self).capture_height == captured.height,
            final(self).encode_width == encoded.width,
            final(self).encode_height == encoded.height,
            final(self).target_bitrate_kbps == target_bitrate_kbps,
    {
        self.capture_width = captured.width;
        self.capture_height = captured.height;
        self.encode_width = encoded.width;
        self.encode_height = encoded.height;
        self.encoder_backend = Some(backend.name().to_string());
        self.target_bitrate_kbps = target_bitrate_kbps;
    }
}

/// The parts of a URL that the host looks at.
#[derive(Debug)]
pub struct UrlParts {
    pub scheme: String,
    pub host: Option<String>,
    /// The whole URL, as it is written down after reading.
    pub text: String,
}

/// The parts of a URL, as sequences of characters.
#[verifier::ext_equal]
pub struct UrlView {
    pub scheme: Seq<char>,
    pub host: Option<Seq<char>>,
    pub text: Seq<char>,
}

/// A text that may be missing, as a sequence of characters.
pub open spec fn optional_text(text: Option<String>) -> Option<Seq<char>> {
    match text {
        Some(text) => Some(text@),
        None => None,
    }
}

impl View for UrlParts {
    type V = UrlView;

    open spec fn view(&self) -> UrlView {
        UrlView { scheme: self.scheme@, host: optional_text(self.host), text: self.text@ }
    }
}

/// What a text is as a URL: the parts, or nothing where it is none.
pub uninterp spec fn url_parts(text: Seq<char>) -> Option<UrlView>;

/// `reqwest::Url::parse`, with `scheme`, `host_str` and `as_str` of the result:
/// all of them depend on the text alone.
#[verifier::external_body]
fn parse_url(text: &str) -> (parts: Option<UrlParts>)
    ensures
        match parts {
            Some(parts) => url_parts(text@) == Some(parts@),
            None => url_parts(text@) is None,
        },
{
    match reqwest::Url::parse(text) {
        Ok(url) => Some(UrlParts {
            scheme: url.scheme().to_string(),
            host: url.host_str().map(|host| host.to_string()),
            text: url.as_str().to_string(),
        }),
        Err(_) => None,
    }
}

/// A text without the slashes at its end.
pub open spec fn without_slashes(text: Seq<char>) -> Seq<char>
    decreases text.len(),
{
    if text.len() > 0 && text.last() == '/' {
        without_slashes(text.drop_last())
    } else {
        text
    }
}

fn trim_slashes(text: &str) -> (trimmed: String)
    ensures
        trimmed@ == without_slashes(text@),
{
    let mut end: usize = text.unicode_len();
    assert(text@.take(text@.len() as int) =~= text@);
    while end > 0 && text.get_char(end - 1) == '/'
        invariant
            end <= text@.len(),
            without_slashes(text@.take(end as int)) == without_slashes(text@),
        decreases end,
    {
        end = end - 1;
        assert(text@.take(end + 1).drop_last() =~= text@.take(end as int));
    }
    assert(text@.subrange(0, end as int) =~= text@.take(end as int));
    text.substring_char(0, end).to_string()
}

/// Whether a URL is one of a relay: HTTP, plain or secure, with a host.
pub open spec fn is_relay_url(url: UrlView) -> bool {
    (url.scheme == "http"@ || url.scheme == "https"@) && url.host is Some
}

/// The base of the addresses of a relay, out of the parts of its URL.
pub fn base_of(parts: &UrlParts) -> (base: Option<String>)
    ensures
        match base {
            Some(base) => is_relay_url(parts@) && base@ == without_slashes(parts.text@),
            None => !is_relay_url(parts@),
        },
{
    if (parts.scheme == "http".to_string() || parts.scheme == "https".to_string())
        && parts.host.is_some() {
        Some(trim_slashes(parts.text.as_str()))
    } else {
        None
    }
}

/// The base of the addresses of a relay. There is none where the text is no URL
/// of a relay.
pub fn relay_base(base_url: &str) -> (base: Option<String>)
    ensures
        match url_parts(base_url@) {
            Some(url) => if is_relay_url(url) {
                base matches Some(base) && base@ == without_slashes(url.text)
            } else {
                base is None
            },
            None => base is None,
        },
{
    match parse_url(base_url) {
        Some(parts) => base_of(&parts),
        None => None,
    }
}

/// Whether a character is white space.
pub open spec fn is_white_space(c: char) -> bool {
    let code = c as u32;
    ||| 0x9 <= code <= 0xd
    ||| code == 0x20
    ||| code == 0x85
    ||| code == 0xa0
    ||| code == 0x1680
    ||| 0x2000 <= code <= 0x200a
    ||| 0x2028 <= code <= 0x2029
    ||| code == 0x202f
    ||| code == 0x205f
    ||| code == 0x3000
}

fn white_space(c: char) -> (white: bool)
    ensures
        white == is_white_space(c),
{
    let code: u32 = c as u32;
    (code >= 0x9 && code <= 0xd) || code == 0x20 || code == 0x85 || code == 0xa0 || code == 0x1680
        || (code >= 0x2000 && code <= 0x200a) || (code >= 0x2028 && code <= 0x2029) || code
        == 0x202f || code == 0x205f || code == 0x3000
}

/// A text without the white space at its end.
pub open spec fn trimmed_end(text: Seq<char>) -> Seq<char>
    decreases text.len(),
{
    if text.len() > 0 && is_white_space(text.last()) {
        trimmed_end(text.drop_last())
    } else {
        text
    }
}

/// A text without the white space at its start.
pub open spec fn trimmed_start(text: Seq<char>) -> Seq<char>
    decreases text.len(),
{
    if text.len() > 0 && is_white_space(text.first()) {
        trimmed_start(text.drop_first())
    } else {
        text
    }
}

/// A text without the white space around it.
pub open spec fn trimmed(text: Seq<char>) -> Seq<char> {
    trimmed_start(trimmed_end(text))
}

fn trim(text: &str) -> (result: String)
    ensures
        result@ == trimmed(text@),
{
    let mut end: usize = text.unicode_len();
    assert(text@.take(text@.len() as int) =~= text@);
    while end > 0 && white_space(text.get_char(end - 1))
        invariant
            end <= text@.len(),
            trimmed_end(text@.take(end as int)) == trimmed_end(text@),
        decreases end,
    {
        end = end - 1;
        assert(text@.take(end + 1).drop_last() =~= text@.take(end as int));
    }
    let ghost kept = text@.take(end as int);
    assert(trimmed_end(text@) == kept);
    let mut start: usize = 0;
    assert(kept.skip(0) =~= kept);
    while start < end && white_space(text.get_char(start))
        invariant
            start <= end <= text@.len(),
            kept == text@.take(end as int),
            trimmed_start(kept.skip(start as int)) == trimmed_start(kept),
        decreases end - start,
    {
        assert(kept.skip(start as int).drop_first() =~= kept.skip(start + 1));
        start = start + 1;
    }
    assert(text@.subrange(start as int, end as int) =~= kept.skip(start as int));
    text.substring_char(start, end).to_string()
}

/// The identifier of the machine, and whether it is new and has to be kept: what
/// was kept, without white space around it, or else a fresh one.
pub fn machine_id(kept: Option<&str>) -> (id: (String, bool))
    ensures
        if kept matches Some(text) && trimmed(text@).len() > 0 {
            kept matches Some(text) && id.0@ == trimmed(text@) && !id.1
        } else {
            id.1 && exists|number: u128| is_random_id(number) && id.0@ == hyphenated(number)
        },
{
    if let Some(text) = kept {
        let id: String = trim(text);
        if id.as_str().unicode_len() > 0 {
            return (id, false);
        }
    }
    let number: u128 = random_id();
    let text: String = id_text(number);
    assert(is_random_id(number) && text@ == hyphenated(number));
    (text, true)
}

/// What the host is, for the relay.
#[derive(Debug)]
pub struct Registration {
    pub id: String,
    pub name: String,
    pub display_name: String,
    pub frame_endpoint: String,
    pub os: String,
    pub gpu_vendor: String,
    pub encoder_backend: String,
    pub virtual_display: bool,
    pub width: u32,
    pub height: u32,
    pub target_fps: u32,
    pub target_bitrate_kbps: u32,
}

/// What the host is, with its texts as sequences of characters.
#[verifier::ext_equal]
pub struct RegistrationView {
    pub id: Seq<char>,
    pub name: Seq<char>,
    pub display_name: Seq<char>,
    pub frame_endpoint: Seq<char>,
    pub os: Seq<char>,
    pub gpu_vendor: Seq<char>,
    pub encoder_backend: Seq<char>,
    pub virtual_display: bool,
    pub width: u32,
    pub height: u32,
    pub target_fps: u32,
    pub target_bitrate_kbps: u32,
}

impl View for Registration {
    type V = RegistrationView;

    open spec fn view(&self) -> RegistrationView {
        RegistrationView {
            id: self.id@,
            name: self.name@,
            display_name: self.display_name@,
            frame_endpoint: self.frame_endpoint@,
            os: self.os@,
            gpu_vendor: self.gpu_vendor@,
            encoder_backend: self.encoder_backend@,
            virtual_display: self.virtual_display,
            width: self.width,
            height: self.height,
            target_fps: self.target_fps,
            target_bitrate_kbps: self.target_bitrate_kbps,
        }
    }
}

/// What the configuration says of the video.
#[derive(Debug, Clone, Copy, PartialEq, Eq, Structural)]
pub struct VideoSettings {
    pub encoder: Option<EncoderBackend>,
    /// The size of the virtual display, where there is one.
    pub virtual_display: Option<Resolution>,
    pub max_width: u32,
    pub max_height: u32,
    pub max_fps: u32,
}

impl Registration {
    /// What the host is before it does anything.
    pub fn new(
        id: String,
        name: String,
        frame_endpoint: String,
        os: String,
        gpu_vendor: String,
        video: VideoSettings,
    ) -> (registration: Self)
        ensures
            registration@ == (RegistrationView {
                id: id@,
                name: name@,
                display_name: Seq::empty(),
                frame_endpoint: frame_endpoint@,
                os: os@,
                gpu_vendor: gpu_vendor@,
                encoder_backend: match video.encoder {
                    Some(backend) => backend_text(backend),
                    None => "unknown"@,
                },
                virtual_display: video.virtual_display is Some,
                width: match video.virtual_display {
                    Some(size) => size.width,
                    None => video.max_width,
                },
                height: match video.virtual_display {
                    Some(size) => size.height,
                    None => video.max_height,
                },
                target_fps: if video.max_fps < 144 {
                    video.max_fps
                } else {
                    144
                },
                target_bitrate_kbps: 0,
            }),
    {
        let (width, height): (u32, u32) = match video.virtual_display {
            Some(size) => (size.width, size.height),
            None => (video.max_width, video.max_height),
        };
        let registration = Registration {
            id,
            name,
            display_name: String::new(),
            frame_endpoint,
            os,
            gpu_vendor,
            encoder_backend: match video.encoder {
                Some(backend) => backend.name().to_string(),
                None => "unknown".to_string(),
            },
            virtual_display: video.virtual_display.is_some(),
            width,
            height,
            target_fps: capture_fps(video.max_fps),
            target_bitrate_kbps: 0,
        };
        assert(registration.display_name@ =~= Seq::empty());
        registration
    }

    /// What the host is while it does something: the size is told once frames are
    /// encoded, the encoder once there is one.
    pub fn current(&self, status: &RuntimeStatus) -> (current: Registration)
        ensures
            current@ == (RegistrationView {
                display_name: match status.display_name {
                    Some(name) => name@,
                    None => Seq::empty(),
                },
                encoder_backend: match status.encoder_backend {
                    Some(backend) => backend@,
                    None => self.encoder_backend@,
                },
                width: if status.encode_width != 0 {
                    status.encode_width
                } else {
                    self.width
                },
                height: if status.encode_width != 0 {
                    status.encode_height
                } else {
                    self.height
                },
                target_bitrate_kbps: status.target_bitrate_kbps,
                ..self@
            }),
    {
        let display_name: String = match &status.display_name {
            Some(name) => name.as_str().to_string(),
            None => String::new(),
        };
        let encoder_backend: String = match &status.encoder_backend {
            Some(backend) => backend.as_str().to_string(),
            None => self.encoder_backend.as_str().to_string(),
        };
        let sized: bool = status.encode_width != 0;
        let current = Registration {
            id: self.id.as_str().to_string(),
            name: self.name.as_str().to_string(),
            display_name,
            frame_endpoint: self.frame_endpoint.as_str().to_string(),
            os: self.os.as_str().to_string(),
            gpu_vendor: self.gpu_vendor.as_str().to_string(),
            encoder_backend,
            virtual_display: self.virtual_display,
            width: if sized {
                status.encode_width
            } else {
                self.width
            },
            height: if sized {
                status.encode_height
            } else {
                self.height
            },
            target_fps: self.target_fps,
            target_bitrate_kbps: status.target_bitrate_kbps,
        };
        assert(status.display_name is None ==> current.display_name@ =~= Seq::empty());
        current
    }
}

/// The addresses of a relay at which a host reports.
#[derive(Debug)]
pub struct Endpoints {
    pub register: String,
    pub heartbeat: String,
    pub deregister: String,
}

impl Endpoints {
    /// The addresses for a host.
    pub fn new(base: &str, id: &str) -> (endpoints: Self)
        ensures
            endpoints.register@ == base@ + "/api/machines/register"@,
            endpoints.heartbeat@ == base@ + "/api/machines/"@ + id@ + "/heartbeat"@,
            endpoints.deregister@ == base@ + "/api/machines/"@ + id@ + "/deregister"@,
    {
        let mut register = base.to_string();
        register.append("/api/machines/register");
        let mut heartbeat = base.to_string();
        heartbeat.append("/api/machines/");
        heartbeat.append(id);
        heartbeat.append("/heartbeat");
        let mut deregister = base.to_string();
        deregister.append("/api/machines/");
        deregister.append(id);
        deregister.append("/deregister");
        Endpoints { register, heartbeat, deregister }
    }

    /// The address of the next report: the first one registers the host.
    pub fn report(&self, first: bool) -> (address: &str)
        ensures
            address@ == if first {
                self.register@
            } else {
                self.heartbeat@
            },
    {
        if first {
            self.register.as_str()
        } else {
            self.heartbeat.as_str()
        }
    }
}

/// A URL and a registration are seen with their own fields.
pub proof fn law_registrations_are_seen(url: UrlParts, registration: Registration)
    ensures
        url@.scheme == url.scheme@,
        url.host is None ==> url@.host is None,
        url.host matches Some(host) ==> url@.host == Some(host@),
        url@.text == url.text@,
        registration@.id == registration.id@,
        registration@.name == registration.name@,
        registration@.display_name == registration.display_name@,
        registration@.frame_endpoint == registration.frame_endpoint@,
        registration@.os == registration.os@,
        registration@.gpu_vendor == registration.gpu_vendor@,
        registration@.encoder_backend == registration.encoder_backend@,
        registration@.virtual_display == registration.virtual_display,
        registration@.width == registration.width,
        registration@.height == registration.height,
        registration@.target_fps == registration.target_fps,
        registration@.target_bitrate_kbps == registration.target_bitrate_kbps,
{
}

/// A relay is reached by HTTP, plain or secure, and has a host.
pub proof fn law_relays_speak_http(url: UrlView)
    ensures
        is_relay_url(url) <==> url.host is Some && (url.scheme == "http"@ || url.scheme
            == "https"@),
{
}

/// What is left of a text without the slashes at its end is its start, does not end
/// in a slash, and is followed by slashes alone.
pub proof fn law_only_slashes_at_the_end_go(text: Seq<char>)
    ensures
        ({
            let kept = without_slashes(text);
            &&& kept.len() <= text.len()
            &&& kept == text.take(kept.len() as int)
            &&& kept.len() > 0 ==> kept.last() != '/'
            &&& forall|i: int| kept.len() <= i < text.len() ==> #[trigger] text[i] == '/'
        }),
    decreases text.len(),
{
    if text.len() > 0 && text.last() == '/' {
        law_only_slashes_at_the_end_go(text.drop_last());
        let kept = without_slashes(text);
        assert(text.drop_last().take(kept.len() as int) =~= text.take(kept.len() as int));
        assert forall|i: int| kept.len() <= i < text.len() implies #[trigger] text[i] == '/' by {
            if i < text.len() - 1 {
                assert(text.drop_last()[i] == text[i]);
            }
        }
    } else {
        assert(text.take(text.len() as int) =~= text);
    }
}

/// The characters that are white space.
pub proof fn law_white_space(c: char)
    ensures
        ({
            let code = c as u32;
            is_white_space(c) <==> {
                ||| code == 0x9 || code == 0xa || code == 0xb || code == 0xc || code == 0xd
                ||| code == 0x20 || code == 0x85 || code == 0xa0 || code == 0x1680
                ||| 0x2000 <= code <= 0x200a
                ||| code == 0x2028 || code == 0x2029 || code == 0x202f || code == 0x205f
                ||| code == 0x3000
            }
        }),
{
}

proof fn lemma_trimmed_end(text: Seq<char>)
    ensures
        ({
            let kept = trimmed_end(text);
            &&& kept.len() <= text.len()
            &&& kept == text.take(kept.len() as int)
            &&& kept.len() > 0 ==> !is_white_space(kept.last())
            &&& forall|i: int| kept.len() <= i < text.len() ==> is_white_space(#[trigger] text[i])
        }),
    decreases text.len(),
{
    if text.len() > 0 && is_white_space(text.last()) {
        lemma_trimmed_end(text.drop_last());
        let kept = trimmed_end(text);
        assert(text.drop_last().take(kept.len() as int) =~= text.take(kept.len() as int));
        assert forall|i: int| kept.len() <= i < text.len() implies is_white_space(
            #[trigger] text[i],
        ) by {
            if i < text.len() - 1 {
                assert(text.drop_last()[i] == text[i]);
            }
        }
    } else {
        assert(text.take(text.len() as int) =~= text);
    }
}

proof fn lemma_trimmed_start(text: Seq<char>)
    ensures
        ({
            let kept = trimmed_start(text);
            let from = text.len() - kept.len();
            &&& kept.len() <= text.len()
            &&& kept == text.skip(from)
            &&& kept.len() > 0 ==> !is_white_space(kept.first())
            &&& forall|i: int| 0 <= i < from ==> is_white_space(#[trigger] text[i])
        }),
    decreases text.len(),
{
    if text.len() > 0 && is_white_space(text.first()) {
        lemma_trimmed_start(text.drop_first());
        let kept = trimmed_start(text);
        let from = text.len() - kept.len();
        assert(text.drop_first().skip(from - 1) =~= text.skip(from));
        assert forall|i: int| 0 <= i < from implies is_white_space(#[trigger] text[i]) by {
            if i > 0 {
                assert(text.drop_first()[i - 1] == text[i]);
            }
        }
    } else {
        assert(text.skip(0) =~= text);
    }
}

/// Trimming keeps a part of the text that neither starts nor ends with white space
/// and has nothing but white space around it.
pub proof fn law_only_white_space_around_goes(text: Seq<char>)
    ensures
        trimmed(text).len() > 0 ==> !is_white_space(trimmed(text).first()) && !is_white_space(
            trimmed(text).last(),
        ),
        exists|from: int|
            0 <= from <= from + trimmed(text).len() <= text.len() && #[trigger] text.subrange(
                from,
                from + trimmed(text).len(),
            ) == trimmed(text) && (forall|i: int|
                0 <= i < from || from + trimmed(text).len() <= i < text.len() ==> is_white_space(
                    #[trigger] text[i],
                )),
{
    let front = trimmed_end(text);
    let kept = trimmed(text);
    lemma_trimmed_end(text);
    lemma_trimmed_start(front);
    let from = front.len() - kept.len();
    assert(text.subrange(from, from + kept.len()) =~= kept);
    assert forall|i: int| 0 <= i < from || from + kept.len() <= i < text.len() implies is_white_space(
        #[trigger] text[i],
    ) by {
        if i < from {
            assert(front[i] == text[i]);
        }
    }
    if kept.len() > 0 {
        assert(kept.last() == front.last());
    }
}

} // verus!
