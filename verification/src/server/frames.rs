//! Sending of frames to the relay.
//!
//! A frame that is no keyframe is given up while it is being sent, when newer
//! ones pile up behind it; a keyframe then has to follow.

use vstd::prelude::*;

use crate::encode::nal::{contains_idr_nalu, holds_idr};
use crate::server::wire::{
    header, message_header, MESSAGE_CURSOR, MESSAGE_FRAME, MESSAGE_RESOLUTION_STATUS,
};
use crate::types::VideoCodec;

verus! {

/// Frames that have to wait before one is given up.
pub const FRAME_RESET_BACKLOG_THRESHOLD: u64 = 3;

/// Time between two frames that are given up, in nanoseconds.
pub const FRAME_RESET_IDR_COOLDOWN: u64 = 500_000_000;

/// Bytes that are written at a time.
pub const CHUNK_SIZE: usize = 16384;

/// Decides when a frame is given up. Times are nanoseconds on a clock that does
/// not run backwards.
#[derive(Debug)]
pub struct FrameResetPolicy {
    last_reset: Option<u64>,
}

/// Whether a frame is given up, when the last one was given up at `last`.
pub open spec fn gives_up(last: Option<u64>, backlog: u64, is_idr: bool, now: u64) -> bool {
    &&& !is_idr
    &&& backlog >= FRAME_RESET_BACKLOG_THRESHOLD
    &&& last matches Some(time) ==> now - time >= FRAME_RESET_IDR_COOLDOWN
}

impl Default for FrameResetPolicy {
    /// A policy under which no frame was given up yet.
    fn default() -> (policy: Self)
        ensures
            policy.last() is None,
    {
        FrameResetPolicy { last_reset: None }
    }
}

impl FrameResetPolicy {
    /// When the last frame was given up.
    pub closed spec fn last(self) -> Option<u64> {
        self.last_reset
    }

    /// Decides whether the frame that is being sent is given up.
    pub fn should_reset(&mut self, backlog: u64, is_idr: bool, now: u64) -> (reset: bool)
        ensures
            reset == gives_up(old(self).last(), backlog, is_idr, now),
            final(self).last() == if reset {
                Some(now)
            } else {
                old(self).last()
            },
    {
        if is_idr || backlog < FRAME_RESET_BACKLOG_THRESHOLD {
            return false;
        }
        if let Some(last) = self.last_reset {
            if now < last || now - last < FRAME_RESET_IDR_COOLDOWN {
                return false;
            }
        }
        self.last_reset = Some(now);
        true
    }
}

/// Keyframes are never given up.
pub proof fn law_idr_frames_are_never_reset(last: Option<u64>, backlog: u64, now: u64)
    ensures
        !gives_up(last, backlog, true, now),
{
}

/// Two frames that are given up one after the other are half a second apart.
pub proof fn law_resets_are_rate_limited(
    last: Option<u64>,
    backlog: u64,
    is_idr: bool,
    now: u64,
    later_backlog: u64,
    later_is_idr: bool,
    later: u64,
)
    requires
        gives_up(last, backlog, is_idr, now),
        gives_up(Some(now), later_backlog, later_is_idr, later),
    ensures
        later - now >= 500_000_000,
{
}

/// Whether an access unit is a keyframe.
pub fn is_idr_frame(data: &[u8]) -> (idr: bool)
    ensures
        idr == holds_idr(data@, VideoCodec::H264),
{
    contains_idr_nalu(data, VideoCodec::H264)
}

/// An access unit and when it was captured, in microseconds.
#[derive(Debug)]
pub struct StreamFrame {
    pub timestamp: u64,
    pub data: Vec<u8>,
}

/// An access unit, with its bytes as a sequence.
#[verifier::ext_equal]
pub struct StreamFrameView {
    pub timestamp: u64,
    pub data: Seq<u8>,
}

impl View for StreamFrame {
    type V = StreamFrameView;

    open spec fn view(&self) -> StreamFrameView {
        StreamFrameView { timestamp: self.timestamp, data: self.data@ }
    }
}

impl StreamFrame {
    /// The header of the message with the frame.
    pub fn header(&self) -> (bytes: Vec<u8>)
        ensures
            bytes@ == header(MESSAGE_FRAME, self.timestamp, self.data@.len()),
    {
        message_header(MESSAGE_FRAME, self.timestamp, self.data.len())
    }
}

/// What the queue of frames gave while a frame was being sent.
#[derive(Debug)]
pub enum Arrival {
    /// A newer frame.
    Frame(StreamFrame),
    /// That many frames were lost, since they were not taken in time.
    Lagged(u64),
    /// No frame will come any more.
    Closed,
}

/// An arrival, with its frame as a view.
#[verifier::ext_equal]
pub enum ArrivalView {
    Frame(StreamFrameView),
    Lagged(u64),
    Closed,
}

impl View for Arrival {
    type V = ArrivalView;

    open spec fn view(&self) -> ArrivalView {
        match *self {
            Arrival::Frame(frame) => ArrivalView::Frame(frame@),
            Arrival::Lagged(count) => ArrivalView::Lagged(count),
            Arrival::Closed => ArrivalView::Closed,
        }
    }
}

/// The newest frame that waits, and how many wait.
#[verifier::ext_equal]
pub struct Waiting {
    pub pending: Option<StreamFrameView>,
    pub backlog: u64,
}

/// A count that stays where it is when it is full.
pub open spec fn counted(backlog: u64, more: u64) -> u64 {
    if backlog + more > u64::MAX {
        u64::MAX
    } else {
        (backlog + more) as u64
    }
}

/// What waits after something arrived; nothing is kept when the queue closed.
pub open spec fn after_arrival(waiting: Option<Waiting>, arrival: ArrivalView) -> Option<Waiting> {
    match (waiting, arrival) {
        (Some(w), ArrivalView::Frame(frame)) => Some(
            Waiting { pending: Some(frame), backlog: counted(w.backlog, 1) },
        ),
        (Some(w), ArrivalView::Lagged(count)) => Some(
            Waiting { pending: w.pending, backlog: counted(w.backlog, count) },
        ),
        _ => None,
    }
}

/// What waits after all that arrived.
pub open spec fn after_arrivals(waiting: Option<Waiting>, arrivals: Seq<Arrival>) -> Option<Waiting>
    decreases arrivals.len(),
{
    if arrivals.len() == 0 {
        waiting
    } else {
        after_arrival(after_arrivals(waiting, arrivals.drop_last()), arrivals.last()@)
    }
}

/// What becomes of the frame that is being sent.
#[derive(Debug)]
pub enum Interruption {
    /// The frame is written on.
    Continue,
    /// The frame is given up, a keyframe is requested, and this frame is next.
    Reset(StreamFrame),
    /// The queue closed: the connection ends.
    Disconnected,
}

/// What to do next to send a frame.
#[derive(Debug, Clone, Copy, PartialEq, Eq, Structural)]
pub enum SendStep {
    /// These bytes of the frame come next, or as many of the first of them as can be
    /// written at once. Where it is allowed to, the queue of frames may interrupt
    /// before any of them is written.
    Write { start: usize, end: usize, interruptible: bool },
    /// All bytes are written.
    Finish,
}

/// How the sending of a frame ended.
#[derive(Debug)]
pub enum FrameSendResult {
    /// The frame was sent.
    Complete,
    /// A newer frame is to be sent at once.
    Superseded(StreamFrame),
    /// The relay is gone.
    Disconnected,
}

/// The sending of one frame.
#[derive(Debug)]
pub struct FrameSend {
    length: usize,
    is_idr: bool,
    pending: Option<StreamFrame>,
    backlog: u64,
    offset: usize,
}

/// The frame that waits, if there is one.
pub open spec fn pending_view(pending: Option<StreamFrame>) -> Option<StreamFrameView> {
    match pending {
        Some(frame) => Some(frame@),
        None => None,
    }
}

/// Where a chunk ends.
pub open spec fn chunk_end(offset: int, length: int) -> int {
    if offset + CHUNK_SIZE < length {
        offset + CHUNK_SIZE
    } else {
        length
    }
}

impl FrameSend {
    /// The number of bytes of the frame.
    pub closed spec fn length(self) -> int {
        self.length as int
    }

    /// Whether the frame is a keyframe.
    pub closed spec fn idr(self) -> bool {
        self.is_idr
    }

    /// The number of bytes that are written.
    pub closed spec fn written(self) -> int {
        self.offset as int
    }

    /// What waits behind the frame.
    pub closed spec fn waiting(self) -> Waiting {
        Waiting { pending: pending_view(self.pending), backlog: self.backlog }
    }

    /// No more is written than there is.
    pub closed spec fn wf(self) -> bool {
        self.offset <= self.length
    }

    /// Starts to send a frame.
    pub fn new(data: &[u8]) -> (send: Self)
        ensures
            send.wf(),
            send.length() == data@.len(),
            send.idr() == holds_idr(data@, VideoCodec::H264),
            send.written() == 0,
            send.waiting() == (Waiting { pending: None, backlog: 0 }),
    {
        FrameSend {
            length: data.len(),
            is_idr: is_idr_frame(data),
            pending: None,
            backlog: 0,
            offset: 0,
        }
    }

    /// What to do next. Nothing interrupts the writing of a keyframe.
    pub fn next_step(&self) -> (step: SendStep)
        requires
            self.wf(),
        ensures
            step == if self.written() < self.length() {
                (SendStep::Write {
                    start: self.written() as usize,
                    end: chunk_end(self.written(), self.length()) as usize,
                    interruptible: !self.idr(),
                })
            } else {
                SendStep::Finish
            },
    {
        if self.offset < self.length {
            let end: usize = if self.length - self.offset > CHUNK_SIZE {
                self.offset + CHUNK_SIZE
            } else {
                self.length
            };
            SendStep::Write { start: self.offset, end, interruptible: !self.is_idr }
        } else {
            SendStep::Finish
        }
    }

    /// The first bytes of the chunk were written.
    pub fn bytes_written(&mut self, count: usize)
        requires
            old(self).wf(),
            old(self).written() + count <= chunk_end(old(self).written(), old(self).length()),
        ensures
            final(self).wf(),
            final(self).length() == old(self).length(),
            final(self).idr() == old(self).idr(),
            final(self).waiting() == old(self).waiting(),
            final(self).written() == old(self).written() + count,
    {
        self.offset = self.offset + count;
    }

    fn count(&mut self, more: u64)
        ensures
            *final(self) == (FrameSend {
                backlog: counted(old(self).backlog, more),
                ..*old(self)
            }),
    {
        self.backlog = if u64::MAX - self.backlog < more {
            u64::MAX
        } else {
            self.backlog + more
        };
    }

    /// The queue of frames interrupted the writing with `first`. Behind a frame
    /// comes all that the queue held: `rest`. Then it is decided whether the
    /// frame that is being sent is given up.
    pub fn interrupted(
        &mut self,
        first: Arrival,
        rest: Vec<Arrival>,
        policy: &mut FrameResetPolicy,
        now: u64,
    ) -> (result: Interruption)
        requires
            old(self).wf(),
        ensures
            final(self).wf(),
            final(self).length() == old(self).length(),
            final(self).idr() == old(self).idr(),
            final(self).written() == old(self).written(),
            ({
                let alone = after_arrival(Some(old(self).waiting()), first@);
                let waiting = if first is Frame {
                    after_arrivals(alone, rest@)
                } else {
                    alone
                };
                let reset = first is Frame && (waiting matches Some(w) && gives_up(
                    old(policy).last(),
                    w.backlog,
                    false,
                    now,
                ));
                &&& final(policy).last() == if reset {
                    Some(now)
                } else {
                    old(policy).last()
                }
                &&& match waiting {
                    None => result is Disconnected,
                    Some(w) => if reset {
                        result matches Interruption::Reset(frame) && Some(frame@) == w.pending
                    } else {
                        result is Continue && final(self).waiting() == w
                    },
                }
            }),
    {
        match first {
            Arrival::Frame(frame) => {
                self.pending = Some(frame);
                self.count(1);
            },
            Arrival::Lagged(count) => {
                self.count(count);
                return Interruption::Continue;
            },
            Arrival::Closed => {
                return Interruption::Disconnected;
            },
        }
        let ghost alone = Some(self.waiting());
        let mut queue: Vec<Arrival> = rest;
        assert(rest@.take(0) =~= Seq::empty());
        while queue.len() > 0
            invariant
                old(self).wf(),
                first is Frame,
                alone == after_arrival(Some(old(self).waiting()), first@),
                policy.last() == old(policy).last(),
                queue@.len() <= rest@.len(),
                queue@ == rest@.skip(rest@.len() - queue@.len()),
                self.pending is Some,
                Some(self.waiting()) == after_arrivals(
                    alone,
                    rest@.take(rest@.len() - queue@.len()),
                ),
                self.length == old(self).length,
                self.is_idr == old(self).is_idr,
                self.offset == old(self).offset,
            decreases queue@.len(),
        {
            let ghost done = rest@.len() - queue@.len();
            let arrival: Arrival = queue.remove(0);
            proof {
                assert(rest@.take(done + 1).drop_last() =~= rest@.take(done));
                assert(rest@.take(done + 1).last() == arrival);
                assert(queue@ =~= rest@.skip(done + 1));
            }
            match arrival {
                Arrival::Frame(frame) => {
                    self.pending = Some(frame);
                    self.count(1);
                },
                Arrival::Lagged(count) => {
                    self.count(count);
                },
                Arrival::Closed => {
                    proof {
                        lemma_closed_stays(alone, rest@, done + 1);
                    }
                    return Interruption::Disconnected;
                },
            }
        }
        assert(rest@.take(rest@.len() as int) =~= rest@);
        if policy.should_reset(self.backlog, false, now) {
            if let Some(frame) = self.pending.take() {
                return Interruption::Reset(frame);
            }
        }
        Interruption::Continue
    }

    /// The end of the sending, when all bytes are written.
    pub fn finish(self) -> (result: FrameSendResult)
        ensures
            match self.waiting().pending {
                None => result is Complete,
                Some(frame) => result matches FrameSendResult::Superseded(next) && next@ == frame,
            },
    {
        match self.pending {
            None => FrameSendResult::Complete,
            Some(frame) => FrameSendResult::Superseded(frame),
        }
    }
}

/// Nothing is kept any more once the queue closed.
proof fn lemma_closed_stays(waiting: Option<Waiting>, arrivals: Seq<Arrival>, n: int)
    requires
        0 <= n <= arrivals.len(),
        after_arrivals(waiting, arrivals.take(n)) is None,
    ensures
        after_arrivals(waiting, arrivals) is None,
    decreases arrivals.len() - n,
{
    if n == arrivals.len() {
        assert(arrivals.take(n) =~= arrivals);
    } else {
        assert(arrivals.take(n + 1).drop_last() =~= arrivals.take(n));
        lemma_closed_stays(waiting, arrivals, n + 1);
    }
}

/// The number of bytes that are written after some chunks.
pub open spec fn written_after(length: int, chunks: int) -> int {
    if chunks * CHUNK_SIZE < length {
        chunks * CHUNK_SIZE
    } else {
        length
    }
}

/// The chunks of a frame follow each other without gap or overlap, none is larger
/// than the others, and after as many as it takes the whole frame is written.
pub proof fn law_chunks_cover_the_frame(length: int, chunks: int)
    requires
        length >= 0,
        chunks >= 0,
    ensures
        chunk_end(written_after(length, chunks), length) == written_after(length, chunks + 1),
        written_after(length, chunks + 1) - written_after(length, chunks) <= CHUNK_SIZE,
        written_after(length, 0) == 0,
        written_after(length, (length + CHUNK_SIZE - 1) / CHUNK_SIZE as int) == length,
{
}

/// The number of bytes that some writes come to.
pub open spec fn total_written(counts: Seq<nat>) -> nat
    decreases counts.len(),
{
    if counts.len() == 0 {
        0
    } else {
        total_written(counts.drop_last()) + counts.last()
    }
}

/// What a stream holds after some writes, each of the next bytes of the frame.
pub open spec fn stream_after(data: Seq<u8>, counts: Seq<nat>) -> Seq<u8>
    decreases counts.len(),
{
    if counts.len() == 0 {
        Seq::empty()
    } else {
        let start = total_written(counts.drop_last()) as int;
        stream_after(data, counts.drop_last()) + data.subrange(start, start + counts.last())
    }
}

/// However many bytes each write takes and wherever the writing is interrupted, the
/// stream holds the first bytes of the frame, each of them once, and in the end the
/// frame.
pub proof fn law_frame_is_written_once(data: Seq<u8>, counts: Seq<nat>)
    requires
        total_written(counts) <= data.len(),
    ensures
        stream_after(data, counts) == data.take(total_written(counts) as int),
        total_written(counts) == data.len() ==> stream_after(data, counts) == data,
    decreases counts.len(),
{
    if counts.len() == 0 {
        assert(data.take(0) =~= Seq::empty());
    } else {
        law_frame_is_written_once(data, counts.drop_last());
        let start = total_written(counts.drop_last()) as int;
        assert(data.take(start) + data.subrange(start, start + counts.last()) =~= data.take(
            start + counts.last(),
        ));
    }
    assert(data.take(data.len() as int) =~= data);
}

/// Something that concerns a connected relay.
#[derive(Debug)]
pub enum FeedEvent {
    /// A frame is to be sent.
    Frame(StreamFrame),
    /// Frames were lost, since they were not taken in time.
    FramesLagged,
    /// No frame will come any more.
    FramesClosed,
    /// The cursor changed. Its description is missing where it could not be
    /// written down.
    Cursor { timestamp: u64, payload: Option<Vec<u8>> },
    /// The cursor will not change any more.
    CursorClosed,
    /// A change of resolution got on.
    Status { timestamp: u64, payload: Vec<u8> },
    /// Some of that was lost.
    StatusLagged,
    /// No more of that will come.
    StatusClosed,
}

/// What is done for a connected relay.
#[derive(Debug)]
pub enum FeedAction {
    /// A frame is sent.
    SendFrame(StreamFrame),
    /// A message is sent: its header and its payload.
    SendMessage { header: Vec<u8>, payload: Vec<u8> },
    /// Nothing is done until the next event.
    Wait,
    /// The connection ends.
    Close,
}

/// What is done for a connected relay upon an event.
pub fn feed_action(event: FeedEvent) -> (action: FeedAction)
    ensures
        match event {
            FeedEvent::Frame(frame) => action == FeedAction::SendFrame(frame),
            FeedEvent::Cursor { timestamp, payload: Some(payload) } => action matches
                FeedAction::SendMessage { header: head, payload: body } && body == payload && head@
                == header(MESSAGE_CURSOR, timestamp, payload@.len()),
            FeedEvent::Status { timestamp, payload } => action matches FeedAction::SendMessage {
                header: head,
                payload: body,
            } && body == payload && head@ == header(
                MESSAGE_RESOLUTION_STATUS,
                timestamp,
                payload@.len(),
            ),
            FeedEvent::Cursor { payload: None, .. } => action is Wait,
            FeedEvent::FramesLagged => action is Wait,
            FeedEvent::StatusLagged => action is Wait,
            FeedEvent::FramesClosed => action is Close,
            FeedEvent::CursorClosed => action is Close,
            FeedEvent::StatusClosed => action is Close,
        },
{
    match event {
        FeedEvent::Frame(frame) => FeedAction::SendFrame(frame),
        FeedEvent::Cursor { timestamp, payload } => match payload {
            Some(payload) => FeedAction::SendMessage {
                header: message_header(MESSAGE_CURSOR, timestamp, payload.len()),
                payload,
            },
            None => FeedAction::Wait,
        },
        FeedEvent::Status { timestamp, payload } => FeedAction::SendMessage {
            header: message_header(MESSAGE_RESOLUTION_STATUS, timestamp, payload.len()),
            payload,
        },
        FeedEvent::FramesLagged | FeedEvent::StatusLagged => FeedAction::Wait,
        FeedEvent::FramesClosed | FeedEvent::CursorClosed | FeedEvent::StatusClosed => {
            FeedAction::Close
        },
    }
}

/// What is done for a connected relay after a frame: a newer one is sent before
/// anything else.
pub fn after_frame(result: FrameSendResult) -> (action: FeedAction)
    ensures
        action == match result {
            FrameSendResult::Complete => FeedAction::Wait,
            FrameSendResult::Superseded(frame) => FeedAction::SendFrame(frame),
            FrameSendResult::Disconnected => FeedAction::Close,
        },
{
    match result {
        FrameSendResult::Complete => FeedAction::Wait,
        FrameSendResult::Superseded(frame) => FeedAction::SendFrame(frame),
        FrameSendResult::Disconnected => FeedAction::Close,
    }
}

/// A frame is given up exactly where it is no keyframe, three frames or more wait, and half
/// a second passed since another one was given up, if one was.
pub proof fn law_stale_frames_are_given_up(last: u64, backlog: u64, is_idr: bool, now: u64)
    ensures
        gives_up(None, backlog, is_idr, now) <==> !is_idr && backlog >= 3,
        gives_up(Some(last), backlog, is_idr, now) <==> !is_idr && backlog >= 3 && now
            >= last + 500_000_000,
{
}

/// The newest frame that came is the one that waits, and everything that came or was lost
/// is counted, as far as a count goes. Once the queue closed, nothing waits.
pub proof fn law_the_newest_frame_waits(
    waiting: Waiting,
    arrivals: Seq<Arrival>,
    next: Arrival,
)
    ensures
        after_arrivals(Some(waiting), Seq::<Arrival>::empty()) == Some(waiting),
        ({
            let before = after_arrivals(Some(waiting), arrivals);
            let after = after_arrivals(Some(waiting), arrivals.push(next));
            &&& before is None ==> after is None
            &&& before matches Some(earlier) ==> match next {
                Arrival::Frame(frame) => {
                    &&& after is Some
                    &&& after->0.pending is Some
                    &&& after->0.pending->0.timestamp == frame.timestamp
                    &&& after->0.pending->0.data == frame.data@
                    &&& after->0.backlog == if earlier.backlog == u64::MAX {
                        u64::MAX as int
                    } else {
                        earlier.backlog + 1
                    }
                },
                Arrival::Lagged(count) => {
                    &&& after is Some
                    &&& after->0.pending == earlier.pending
                    &&& after->0.backlog == if earlier.backlog + count > u64::MAX {
                        u64::MAX as int
                    } else {
                        earlier.backlog + count
                    }
                },
                Arrival::Closed => after is None,
            }
        }),
{
    assert(arrivals.push(next).drop_last() =~= arrivals);
}

/// A chunk has sixteen kibibytes, or what is left.
pub proof fn law_chunks_have_their_size(offset: int, length: int)
    requires
        0 <= offset <= length,
    ensures
        chunk_end(offset, length) - offset == if length - offset < 16 * 1024 {
            length - offset
        } else {
            0x4000
        },
{
}

/// One arrival does what it does among others.
pub proof fn law_single_arrivals(waiting: Waiting, arrival: Arrival)
    ensures
        after_arrival(Some(waiting), arrival@) == after_arrivals(Some(waiting), seq![arrival]),
        after_arrival(None, arrival@) is None,
        FRAME_RESET_BACKLOG_THRESHOLD == 3,
        FRAME_RESET_IDR_COOLDOWN == 500_000_000,
{
    let one = seq![arrival];
    assert(one.drop_last() =~= Seq::empty());
    assert(one.last() == arrival);
    reveal_with_fuel(after_arrivals, 2);
}

} // verus!
