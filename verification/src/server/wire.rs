//! Messages between the host and the relay.
//!
//! The host sends messages of thirteen bytes of header and a payload. The relay
//! sends commands of one byte and what belongs to it.

use vstd::prelude::*;
use vstd::slice::{slice_subrange, slice_to_vec};

use crate::transport::buffer::{
    be16_value, be32, be32_value, law_be32_round_trip, read_be16, read_be32,
};

verus! {

/// Size of the header of a message.
pub const HEADER_SIZE: usize = 13;

/// Kind of a message with an H.264 access unit.
pub const MESSAGE_FRAME: u8 = 0x01;

/// Kind of a message with the cursor, in JSON.
pub const MESSAGE_CURSOR: u8 = 0x02;

/// Kind of a message with the state of a change of resolution, in JSON.
pub const MESSAGE_RESOLUTION_STATUS: u8 = 0x03;

/// Largest input event that is read.
pub const MAX_INPUT_EVENT: u32 = 1_048_576;

/// The eight bytes of a 64-bit number, the high one first.
pub open spec fn be64(n: u64) -> Seq<u8> {
    be32((n / 0x1_0000_0000) as u32) + be32((n % 0x1_0000_0000) as u32)
}

/// The header of a message: its kind, the capture time in microseconds, and the
/// length of the payload, of which 32 bits are told.
pub open spec fn header(kind: u8, timestamp: u64, length: nat) -> Seq<u8> {
    seq![kind] + be64(timestamp) + be32((length % 0x1_0000_0000) as u32)
}

fn push_be32(out: &mut Vec<u8>, n: u32)
    ensures
        final(out)@ == old(out)@ + be32(n),
{
    out.push((n / 0x100_0000) as u8);
    out.push((n / 0x1_0000 % 256) as u8);
    out.push((n / 256 % 256) as u8);
    out.push((n % 256) as u8);
    assert(out@ =~= old(out)@ + be32(n));
}

/// The header of a message.
pub fn message_header(kind: u8, timestamp: u64, length: usize) -> (bytes: Vec<u8>)
    ensures
        bytes@ == header(kind, timestamp, length as nat),
{
    let mut bytes: Vec<u8> = Vec::with_capacity(HEADER_SIZE);
    bytes.push(kind);
    push_be32(&mut bytes, (timestamp / 0x1_0000_0000) as u32);
    push_be32(&mut bytes, (timestamp % 0x1_0000_0000) as u32);
    push_be32(&mut bytes, (length as u64 % 0x1_0000_0000) as u32);
    assert(bytes@ =~= header(kind, timestamp, length as nat));
    bytes
}

/// A header has its full size and holds its three fields, as long as the payload
/// is shorter than four gigabytes.
pub proof fn law_header_fields(kind: u8, timestamp: u64, length: nat)
    requires
        length < 0x1_0000_0000,
    ensures
        header(kind, timestamp, length).len() == HEADER_SIZE,
        header(kind, timestamp, length)[0] == kind,
        be32_value(header(kind, timestamp, length).subrange(1, 5)) * 0x1_0000_0000 + be32_value(
            header(kind, timestamp, length).subrange(5, 9),
        ) == timestamp,
        be32_value(header(kind, timestamp, length).subrange(9, 13)) == length,
{
    let bytes = header(kind, timestamp, length);
    let (high, low) = ((timestamp / 0x1_0000_0000) as u32, (timestamp % 0x1_0000_0000) as u32);
    let (first, second, third) = (be32(high), be32(low), be32(length as u32));
    law_be32_round_trip(high);
    law_be32_round_trip(low);
    law_be32_round_trip(length as u32);
    assert(length % 0x1_0000_0000 == length);
    lemma_header_parts(kind, first, second, third);
    assert(bytes == seq![kind] + (first + second) + third);
}

/// The parts of a header.
proof fn lemma_header_parts(kind: u8, first: Seq<u8>, second: Seq<u8>, third: Seq<u8>)
    requires
        first.len() == 4,
        second.len() == 4,
        third.len() == 4,
    ensures
        ({
            let bytes = seq![kind] + (first + second) + third;
            &&& bytes.len() == 13
            &&& bytes[0] == kind
            &&& bytes.subrange(1, 5) == first
            &&& bytes.subrange(5, 9) == second
            &&& bytes.subrange(9, 13) == third
        }),
{
    let bytes = seq![kind] + (first + second) + third;
    assert(bytes.subrange(1, 5) =~= first);
    assert(bytes.subrange(5, 9) =~= second);
    assert(bytes.subrange(9, 13) =~= third);
}

/// The two ways on which a relay connects. They differ in what becomes of an
/// unknown command, and only the QUIC one knows changes of resolution.
#[derive(Debug, Clone, Copy, PartialEq, Eq, Structural)]
pub enum Dialect {
    Tcp,
    Quic,
}

/// A command of the relay.
#[derive(Debug)]
pub enum Command {
    /// A keyframe is wanted.
    RequestIdr,
    /// An input event, in JSON.
    Input(Vec<u8>),
    /// A target bitrate in kilobits per second.
    Bitrate(u32),
    /// The number of viewers.
    Viewers(u32),
    /// A quality level and a limit of the framerate; zero leaves each to the host.
    Quality { level: u8, fps: u8 },
    /// A display mode is wanted.
    Resolution { width: u32, height: u32 },
    /// A byte that starts no command and is passed over.
    Unknown(u8),
}

/// A command, with its bytes as a sequence.
#[verifier::ext_equal]
pub enum CommandView {
    RequestIdr,
    Input(Seq<u8>),
    Bitrate(u32),
    Viewers(u32),
    Quality { level: u8, fps: u8 },
    Resolution { width: u32, height: u32 },
    Unknown(u8),
}

impl View for Command {
    type V = CommandView;

    open spec fn view(&self) -> CommandView {
        match *self {
            Command::RequestIdr => CommandView::RequestIdr,
            Command::Input(bytes) => CommandView::Input(bytes@),
            Command::Bitrate(kbps) => CommandView::Bitrate(kbps),
            Command::Viewers(count) => CommandView::Viewers(count),
            Command::Quality { level, fps } => CommandView::Quality { level, fps },
            Command::Resolution { width, height } => CommandView::Resolution { width, height },
            Command::Unknown(byte) => CommandView::Unknown(byte),
        }
    }
}

/// What the bytes that were read amount to.
#[derive(Debug)]
pub enum Parsed {
    /// That many bytes more have to be read.
    More(usize),
    /// A command is complete, in that many bytes.
    Complete { command: Command, used: usize },
    /// The relay is not followed any further.
    Close,
}

/// What bytes amount to, with their content as sequences.
#[verifier::ext_equal]
pub enum ParsedView {
    More(nat),
    Complete { command: CommandView, used: nat },
    Close,
}

impl View for Parsed {
    type V = ParsedView;

    open spec fn view(&self) -> ParsedView {
        match *self {
            Parsed::More(n) => ParsedView::More(n as nat),
            Parsed::Complete { command, used } => ParsedView::Complete {
                command: command@,
                used: used as nat,
            },
            Parsed::Close => ParsedView::Close,
        }
    }
}

/// What the bytes from the start of a command on amount to.
pub open spec fn parsed(bytes: Seq<u8>, dialect: Dialect) -> ParsedView {
    if bytes.len() == 0 {
        ParsedView::More(1)
    } else if bytes[0] == 0x01 {
        ParsedView::Complete { command: CommandView::RequestIdr, used: 1 }
    } else if bytes[0] == 0x02 {
        let length = be32_value(bytes.subrange(1, 5));
        if bytes.len() < 5 {
            ParsedView::More((5 - bytes.len()) as nat)
        } else if length > MAX_INPUT_EVENT {
            ParsedView::Close
        } else if bytes.len() < 5 + length {
            ParsedView::More((5 + length - bytes.len()) as nat)
        } else {
            ParsedView::Complete {
                command: CommandView::Input(bytes.subrange(5, 5 + length)),
                used: (5 + length) as nat,
            }
        }
    } else if bytes[0] == 0x03 || bytes[0] == 0x04 {
        let value = be32_value(bytes.subrange(1, 5)) as u32;
        if bytes.len() < 5 {
            ParsedView::More((5 - bytes.len()) as nat)
        } else if bytes[0] == 0x03 {
            ParsedView::Complete { command: CommandView::Bitrate(value), used: 5 }
        } else {
            ParsedView::Complete { command: CommandView::Viewers(value), used: 5 }
        }
    } else if bytes[0] == 0x05 {
        if bytes.len() < 3 {
            ParsedView::More((3 - bytes.len()) as nat)
        } else {
            ParsedView::Complete {
                command: CommandView::Quality { level: bytes[1], fps: bytes[2] },
                used: 3,
            }
        }
    } else if bytes[0] == 0x06 && dialect == Dialect::Quic {
        if bytes.len() < 5 {
            ParsedView::More((5 - bytes.len()) as nat)
        } else {
            ParsedView::Complete {
                command: CommandView::Resolution {
                    width: be16_value(bytes.subrange(1, 3)) as u32,
                    height: be16_value(bytes.subrange(3, 5)) as u32,
                },
                used: 5,
            }
        }
    } else if dialect == Dialect::Tcp {
        ParsedView::Complete { command: CommandView::Unknown(bytes[0]), used: 1 }
    } else {
        ParsedView::Close
    }
}

/// Reads a command off the bytes that came from the relay since the last one.
pub fn parse_command(bytes: &[u8], dialect: Dialect) -> (result: Parsed)
    ensures
        result@ == parsed(bytes@, dialect),
{
    let len: usize = bytes.len();
    if len == 0 {
        return Parsed::More(1);
    }
    match bytes[0] {
        0x01 => Parsed::Complete { command: Command::RequestIdr, used: 1 },
        0x02 => {
            if len < 5 {
                return Parsed::More(5 - len);
            }
            let length: u32 = read_be32(bytes, 1);
            if length > MAX_INPUT_EVENT {
                return Parsed::Close;
            }
            let end: usize = 5 + length as usize;
            if len < end {
                return Parsed::More(end - len);
            }
            let payload: Vec<u8> = slice_to_vec(slice_subrange(bytes, 5, end));
            Parsed::Complete { command: Command::Input(payload), used: end }
        },
        0x03 => {
            if len < 5 {
                return Parsed::More(5 - len);
            }
            Parsed::Complete { command: Command::Bitrate(read_be32(bytes, 1)), used: 5 }
        },
        0x04 => {
            if len < 5 {
                return Parsed::More(5 - len);
            }
            Parsed::Complete { command: Command::Viewers(read_be32(bytes, 1)), used: 5 }
        },
        0x05 => {
            if len < 3 {
                return Parsed::More(3 - len);
            }
            Parsed::Complete {
                command: Command::Quality { level: bytes[1], fps: bytes[2] },
                used: 3,
            }
        },
        other => {
            if other == 0x06 && dialect == Dialect::Quic {
                if len < 5 {
                    return Parsed::More(5 - len);
                }
                return Parsed::Complete {
                    command: Command::Resolution {
                        width: read_be16(bytes, 1) as u32,
                        height: read_be16(bytes, 3) as u32,
                    },
                    used: 5,
                };
            }
            match dialect {
                Dialect::Tcp => Parsed::Complete { command: Command::Unknown(other), used: 1 },
                Dialect::Quic => Parsed::Close,
            }
        },
    }
}

/// What comes behind a complete command does not change it.
pub proof fn law_command_ends_where_it_says(bytes: Seq<u8>, rest: Seq<u8>, dialect: Dialect)
    requires
        parsed(bytes, dialect) is Complete,
    ensures
        parsed(bytes + rest, dialect) == parsed(bytes, dialect),
        parsed(bytes, dialect)->used <= bytes.len(),
{
    let longer = bytes + rest;
    assert(longer[0] == bytes[0]);
    if bytes.len() >= 5 {
        assert(longer.subrange(1, 5) =~= bytes.subrange(1, 5));
        assert(longer.subrange(1, 3) =~= bytes.subrange(1, 3));
        assert(longer.subrange(3, 5) =~= bytes.subrange(3, 5));
        let length = be32_value(bytes.subrange(1, 5));
        if bytes[0] == 0x02 {
            assert(longer.subrange(5, 5 + length) =~= bytes.subrange(5, 5 + length));
        }
    }
}

/// A reader that reads as many bytes as it is asked for never reads into the
/// next command: with fewer than were asked for, no command is complete.
pub proof fn law_nothing_is_read_ahead(bytes: Seq<u8>, next: Seq<u8>, dialect: Dialect)
    requires
        parsed(bytes, dialect) is More,
        next.len() < parsed(bytes, dialect)->More_0,
    ensures
        parsed(bytes + next, dialect) == ParsedView::More(
            (parsed(bytes, dialect)->More_0 - next.len()) as nat,
        ),
{
    let longer = bytes + next;
    if bytes.len() == 0 {
        assert(longer =~= bytes);
    } else {
        assert(longer[0] == bytes[0]);
        if bytes.len() >= 5 {
            assert(longer.subrange(1, 5) =~= bytes.subrange(1, 5));
        }
    }
}

/// How a message starts: its kind, eight bytes of time and four of length, each number
/// with its high byte first. An access unit is of kind 1, the cursor of kind 2, and a
/// change of resolution of kind 3.
pub proof fn law_message_layout(kind: u8, timestamp: u64, length: nat)
    requires
        length < 0x1_0000_0000,
    ensures
        ({
            let bytes = header(kind, timestamp, length);
            let high = ((bytes[1] * 256 + bytes[2]) * 256 + bytes[3]) * 256 + bytes[4];
            let low = ((bytes[5] * 256 + bytes[6]) * 256 + bytes[7]) * 256 + bytes[8];
            &&& bytes.len() == 13
            &&& bytes[0] == kind
            &&& high * 0x1_0000_0000 + low == timestamp
            &&& ((bytes[9] * 256 + bytes[10]) * 256 + bytes[11]) * 256 + bytes[12] == length
        }),
        MESSAGE_FRAME == 1,
        MESSAGE_CURSOR == 2,
        MESSAGE_RESOLUTION_STATUS == 3,
{
}

/// How the commands of a relay are read, whole ones with anything behind them: 1 asks for
/// a keyframe; 2 brings an input event of a length in four bytes, and closes the
/// connection where that is above a mebibyte; 3 and 4 bring a bitrate and a number of
/// viewers in four bytes; 5 brings a level and a framerate; and 6 brings a width and a
/// height in two bytes each, where the dialect knows it.
pub proof fn law_commands_are_read(bytes: Seq<u8>, dialect: Dialect)
    requires
        bytes.len() >= 5,
    ensures
        ({
            let number = ((bytes[1] * 256 + bytes[2]) * 256 + bytes[3]) * 256 + bytes[4];
            let read = parsed(bytes, dialect);
            &&& bytes[0] == 1 ==> read == (ParsedView::Complete {
                command: CommandView::RequestIdr,
                used: 1,
            })
            &&& bytes[0] == 2 && number > 1024 * 1024 ==> read is Close
            &&& bytes[0] == 2 && number <= 1024 * 1024 && bytes.len() < 5 + number ==> read
                == ParsedView::More((5 + number - bytes.len()) as nat)
            &&& bytes[0] == 2 && number <= 1024 * 1024 && bytes.len() >= 5 + number ==> {
                &&& read is Complete
                &&& read->used == 5 + number
                &&& read->command == CommandView::Input(bytes.skip(5).take(number))
            }
            &&& bytes[0] == 3 ==> read == (ParsedView::Complete {
                command: CommandView::Bitrate(number as u32),
                used: 5,
            })
            &&& bytes[0] == 4 ==> read == (ParsedView::Complete {
                command: CommandView::Viewers(number as u32),
                used: 5,
            })
            &&& bytes[0] == 5 ==> read == (ParsedView::Complete {
                command: CommandView::Quality { level: bytes[1], fps: bytes[2] },
                used: 3,
            })
            &&& bytes[0] == 6 && dialect == Dialect::Quic ==> read == (ParsedView::Complete {
                command: CommandView::Resolution {
                    width: (bytes[1] * 256 + bytes[2]) as u32,
                    height: (bytes[3] * 256 + bytes[4]) as u32,
                },
                used: 5,
            })
            &&& dialect == Dialect::Quic && (bytes[0] == 0 || bytes[0] > 6) ==> read is Close
            &&& dialect == Dialect::Tcp && (bytes[0] == 0 || bytes[0] > 5) ==> read == (
            ParsedView::Complete { command: CommandView::Unknown(bytes[0]), used: 1 })
        }),
{
    let number = ((bytes[1] * 256 + bytes[2]) * 256 + bytes[3]) * 256 + bytes[4];
    let four = bytes.subrange(1, 5);
    assert(four[0] == bytes[1] && four[1] == bytes[2] && four[2] == bytes[3] && four[3] == bytes[4]);
    assert(be32_value(four) == number);
    assert(bytes.subrange(1, 3)[0] == bytes[1] && bytes.subrange(1, 3)[1] == bytes[2]);
    assert(bytes.subrange(3, 5)[0] == bytes[3] && bytes.subrange(3, 5)[1] == bytes[4]);
    if bytes.len() >= 5 + number {
        assert(bytes.subrange(5, 5 + number) =~= bytes.skip(5).take(number));
    }
}

/// How many bytes a command takes at least: one, or three where it is 5, or five where it
/// is 2, 3, 4 or a known 6. With fewer, the rest of them is asked for.
pub proof fn law_short_commands_wait(bytes: Seq<u8>, dialect: Dialect)
    requires
        bytes.len() < 5,
    ensures
        bytes.len() == 0 ==> parsed(bytes, dialect) == ParsedView::More(1),
        bytes.len() > 0 && (2 <= bytes[0] <= 4 || bytes[0] == 6 && dialect == Dialect::Quic) ==> parsed(
            bytes,
            dialect,
        ) == ParsedView::More((5 - bytes.len()) as nat),
        0 < bytes.len() < 3 && bytes[0] == 5 ==> parsed(bytes, dialect) == ParsedView::More(
            (3 - bytes.len()) as nat,
        ),
        bytes.len() > 0 && bytes[0] == 1 ==> parsed(bytes, dialect) == (ParsedView::Complete {
            command: CommandView::RequestIdr,
            used: 1,
        }),
{
}

/// A command is seen as what it is.
pub proof fn law_commands_are_seen_as_they_are(command: Command)
    ensures
        match command {
            Command::RequestIdr => command@ is RequestIdr,
            Command::Input(bytes) => command@ == CommandView::Input(bytes@),
            Command::Bitrate(kbps) => command@ == CommandView::Bitrate(kbps),
            Command::Viewers(count) => command@ == CommandView::Viewers(count),
            Command::Quality { level, fps } => command@ == (CommandView::Quality { level, fps }),
            Command::Resolution { width, height } => command@ == (CommandView::Resolution {
                width,
                height,
            }),
            Command::Unknown(byte) => command@ == CommandView::Unknown(byte),
        },
{
}

/// The kinds and sizes of messages.
pub proof fn law_message_numbers()
    ensures
        HEADER_SIZE == 13,
        MESSAGE_FRAME == 1,
        MESSAGE_CURSOR == 2,
        MESSAGE_RESOLUTION_STATUS == 3,
        MAX_INPUT_EVENT == 1024 * 1024,
{
}

/// What a few bytes are told as, once they are enough: the first byte alone decides, but
/// for a quality, which has two more.
pub proof fn law_short_commands_are_read(bytes: Seq<u8>, dialect: Dialect)
    requires
        0 < bytes.len() < 5,
    ensures
        bytes.len() >= 3 && bytes[0] == 5 ==> parsed(bytes, dialect) == (ParsedView::Complete {
            command: CommandView::Quality { level: bytes[1], fps: bytes[2] },
            used: 3,
        }),
        dialect == Dialect::Quic && (bytes[0] == 0 || bytes[0] > 6) ==> parsed(bytes, dialect)
            is Close,
        dialect == Dialect::Tcp && (bytes[0] == 0 || bytes[0] > 5) ==> parsed(bytes, dialect) == (
        ParsedView::Complete { command: CommandView::Unknown(bytes[0]), used: 1 }),
{
}

/// What was parsed is seen with its own command and lengths, and a message that is longer
/// than its length can say is told by the low half of its length.
pub proof fn law_parsed_commands_are_seen(
    command: Command,
    n: usize,
    kind: u8,
    timestamp: u64,
    length: nat,
)
    ensures
        Parsed::More(n)@ == ParsedView::More(n as nat),
        (Parsed::Complete { command, used: n })@ == (ParsedView::Complete {
            command: command@,
            used: n as nat,
        }),
        Parsed::Close@ == ParsedView::Close,
        header(kind, timestamp, length) == header(kind, timestamp, length % 0x1_0000_0000),
{
}

} // verus!
