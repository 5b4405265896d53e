//! Plain values that cross the AMF interface.

use vstd::prelude::*;

use crate::error::{ErrorView, FluxError};
use crate::text::{push_signed_decimal, signed_decimal};

verus! {

/// Result code of a call that succeeded.
pub const AMF_OK: i32 = 0;

/// Result code of an encoder whose input queue is full.
pub const AMF_INPUT_FULL: i32 = 4;

/// Result code at the end of the stream.
pub const AMF_EOF: i32 = 6;

/// Surface format NV12.
pub const AMF_SURFACE_NV12: i32 = 1;

/// Surface format BGRA.
pub const AMF_SURFACE_BGRA: i32 = 3;

/// Surface format RGBA.
pub const AMF_SURFACE_RGBA: i32 = 5;

/// Surface format P010.
pub const AMF_SURFACE_P010: i32 = 10;

/// Variant tag of a truth value.
pub const AMF_VARIANT_BOOL: i32 = 1;

/// Variant tag of a 64-bit integer.
pub const AMF_VARIANT_INT64: i32 = 2;

/// Variant tag of a size.
pub const AMF_VARIANT_SIZE: i32 = 5;

/// Variant tag of a rate.
pub const AMF_VARIANT_RATE: i32 = 7;

/// An interface identifier.
#[derive(Debug, Clone, Copy)]
pub struct AMFGuid {
    pub data1: u32,
    pub data2: u16,
    pub data3: u16,
    pub data4: [u8; 8],
}

/// Width and height.
#[derive(Debug, Clone, Copy, PartialEq, Eq, Structural)]
pub struct AMFSize {
    pub width: i32,
    pub height: i32,
}

impl AMFSize {
    /// A size of the given width and height.
    pub fn new(w: i32, h: i32) -> (size: Self)
        ensures
            size == (AMFSize { width: w, height: h }),
    {
        Self { width: w, height: h }
    }
}

/// A rate as a fraction.
#[derive(Debug, Clone, Copy, PartialEq, Eq, Structural)]
pub struct AMFRate {
    pub num: u32,
    pub den: u32,
}

impl AMFRate {
    /// A rate of the given fraction.
    pub fn new(num: u32, den: u32) -> (rate: Self)
        ensures
            rate == (AMFRate { num, den }),
    {
        Self { num, den }
    }
}

/// A rectangle by its edges.
#[derive(Debug, Clone, Copy, PartialEq, Eq, Structural)]
pub struct AMFRect {
    pub left: i32,
    pub top: i32,
    pub right: i32,
    pub bottom: i32,
}

/// A tagged value: the tag, and sixteen bytes as two little-endian words.
#[derive(Clone, Copy)]
pub struct AMFVariantStruct {
    pub type_: i32,
    pub data: [u64; 2],
}

/// Two 32-bit halves of a word, the first one low.
pub open spec fn packed_word(low: u32, high: u32) -> u64 {
    (low + high * 0x1_0000_0000) as u64
}

impl AMFVariantStruct {
    /// A truth value: one or zero in the first word.
    pub fn from_bool(v: bool) -> (variant: Self)
        ensures
            variant.type_ == AMF_VARIANT_BOOL,
            variant.data@ == seq![if v { 1u64 } else { 0u64 }, 0u64],
    {
        let word: u64 = if v {
            1
        } else {
            0
        };
        let variant = Self { type_: AMF_VARIANT_BOOL, data: [word, 0] };
        assert(variant.data@ =~= seq![word, 0u64]);
        variant
    }

    /// A 64-bit integer: its two's complement in the first word.
    pub fn from_int64(v: i64) -> (variant: Self)
        ensures
            variant.type_ == AMF_VARIANT_INT64,
            variant.data@ == seq![v as u64, 0u64],
    {
        let variant = Self { type_: AMF_VARIANT_INT64, data: [v as u64, 0] };
        assert(variant.data@ =~= seq![v as u64, 0u64]);
        variant
    }

    /// A size: width and height as the halves of the first word.
    pub fn from_size(sz: AMFSize) -> (variant: Self)
        ensures
            variant.type_ == AMF_VARIANT_SIZE,
            variant.data@ == seq![packed_word(sz.width as u32, sz.height as u32), 0u64],
    {
        let word: u64 = (sz.width as u32) as u64 + ((sz.height as u32) as u64) * 0x1_0000_0000;
        let variant = Self { type_: AMF_VARIANT_SIZE, data: [word, 0] };
        assert(variant.data@ =~= seq![word, 0u64]);
        variant
    }

    /// A rate: numerator and denominator as the halves of the first word.
    pub fn from_rate(r: AMFRate) -> (variant: Self)
        ensures
            variant.type_ == AMF_VARIANT_RATE,
            variant.data@ == seq![packed_word(r.num, r.den), 0u64],
    {
        let word: u64 = r.num as u64 + (r.den as u64) * 0x1_0000_0000;
        let variant = Self { type_: AMF_VARIANT_RATE, data: [word, 0] };
        assert(variant.data@ =~= seq![word, 0u64]);
        variant
    }

    /// The integer in a variant that holds one.
    pub fn as_int64(&self) -> (v: i64)
        requires
            self.type_ == AMF_VARIANT_INT64,
        ensures
            v == self.data@[0] as i64,
    {
        self.data[0] as i64
    }

    /// The truth value in a variant that holds one.
    pub fn as_bool(&self) -> (v: bool)
        requires
            self.type_ == AMF_VARIANT_BOOL,
        ensures
            v == (self.data@[0] != 0),
    {
        self.data[0] != 0
    }
}

/// An integer reads back from the word it was stored in.
pub proof fn law_int64_round_trip(v: i64)
    ensures
        (v as u64) as i64 == v,
{
    assert((v as u64) as i64 == v) by (bit_vector);
}

/// The oldest runtime that is recommended, version 1.4.30.
pub const AMF_MIN_VERSION: u64 = 0x0001_0004_001E_0000;

/// The number of a version: four fields of sixteen bits.
pub fn amf_make_full_version(major: u64, minor: u64, sub: u64, build: u64) -> (version: u64)
    ensures
        version == (major << 48) | (minor << 32) | (sub << 16) | build,
{
    (major << 48) | (minor << 32) | (sub << 16) | build
}

/// The major field of a version.
pub fn amf_get_major(version: u64) -> (major: u64)
    ensures
        major == version / 0x1_0000_0000_0000,
{
    assert((version >> 48) & 0xFFFF == version / 0x1_0000_0000_0000) by (bit_vector);
    (version >> 48) & 0xFFFF
}

/// The minor field of a version.
pub fn amf_get_minor(version: u64) -> (minor: u64)
    ensures
        minor == version / 0x1_0000_0000 % 0x1_0000,
{
    assert((version >> 32) & 0xFFFF == version / 0x1_0000_0000 % 0x1_0000) by (bit_vector);
    (version >> 32) & 0xFFFF
}

/// The sub-minor field of a version.
pub fn amf_get_subminor(version: u64) -> (sub: u64)
    ensures
        sub == version / 0x1_0000 % 0x1_0000,
{
    assert((version >> 16) & 0xFFFF == version / 0x1_0000 % 0x1_0000) by (bit_vector);
    (version >> 16) & 0xFFFF
}

/// The build field of a version.
pub fn amf_get_build(version: u64) -> (build: u64)
    ensures
        build == version % 0x1_0000,
{
    assert(version & 0xFFFF == version % 0x1_0000) by (bit_vector);
    version & 0xFFFF
}

/// The fields of a version read back from its number.
pub proof fn law_version_fields(major: u64, minor: u64, sub: u64, build: u64)
    requires
        major < 0x1_0000,
        minor < 0x1_0000,
        sub < 0x1_0000,
        build < 0x1_0000,
    ensures
        ({
            let version = (major << 48) | (minor << 32) | (sub << 16) | build;
            &&& version == major * 0x1_0000_0000_0000 + minor * 0x1_0000_0000 + sub * 0x1_0000 + build
            &&& version / 0x1_0000_0000_0000 == major
            &&& version / 0x1_0000_0000 % 0x1_0000 == minor
            &&& version / 0x1_0000 % 0x1_0000 == sub
            &&& version % 0x1_0000 == build
        }),
{
    assert((major << 48) | (minor << 32) | (sub << 16) | build == major * 0x1_0000_0000_0000 + minor
        * 0x1_0000_0000 + sub * 0x1_0000 + build) by (bit_vector)
        requires
            major < 0x1_0000,
            minor < 0x1_0000,
            sub < 0x1_0000,
            build < 0x1_0000,
    ;
}

/// Versions are ordered as their fields are, the major one first.
pub proof fn law_versions_are_ordered(
    major: u64,
    minor: u64,
    sub: u64,
    build: u64,
    other_major: u64,
    other_minor: u64,
    other_sub: u64,
    other_build: u64,
)
    requires
        major < 0x1_0000,
        minor < 0x1_0000,
        sub < 0x1_0000,
        build < 0x1_0000,
        other_major < 0x1_0000,
        other_minor < 0x1_0000,
        other_sub < 0x1_0000,
        other_build < 0x1_0000,
    ensures
        ((major << 48) | (minor << 32) | (sub << 16) | build) < ((other_major << 48) | (other_minor
            << 32) | (other_sub << 16) | other_build) <==> {
            ||| major < other_major
            ||| major == other_major && minor < other_minor
            ||| major == other_major && minor == other_minor && sub < other_sub
            ||| major == other_major && minor == other_minor && sub == other_sub && build
                < other_build
        },
{
    law_version_fields(major, minor, sub, build);
    law_version_fields(other_major, other_minor, other_sub, other_build);
}

/// The UTF-16 code units of a character.
pub open spec fn utf16_units(c: char) -> Seq<u16> {
    let code = c as int;
    if code < 0x1_0000 {
        seq![code as u16]
    } else {
        seq![
            (0xD800 + (code - 0x1_0000) / 0x400) as u16,
            (0xDC00 + (code - 0x1_0000) % 0x400) as u16,
        ]
    }
}

/// The UTF-16 code units of a text.
pub open spec fn utf16(text: Seq<char>) -> Seq<u16>
    decreases text.len(),
{
    if text.len() == 0 {
        Seq::empty()
    } else {
        utf16(text.drop_last()) + utf16_units(text.last())
    }
}

/// A text as UTF-16 with a terminating zero.
pub fn to_wide(s: &str) -> (wide: Vec<u16>)
    ensures
        wide@ == utf16(s@).push(0),
{
    let mut wide: Vec<u16> = Vec::new();
    let len: usize = s.unicode_len();
    assert(s@.take(0) =~= Seq::empty());
    for i in 0..len
        invariant
            len == s@.len(),
            wide@ == utf16(s@.take(i as int)),
    {
        let c: char = s.get_char(i);
        let code: u32 = c as u32;
        assert(s@.take(i + 1).drop_last() =~= s@.take(i as int));
        assert(s@.take(i + 1).last() == c);
        let ghost before = wide@;
        if code < 0x1_0000 {
            wide.push(code as u16);
        } else {
            let rest: u32 = code - 0x1_0000;
            wide.push((0xD800 + rest / 0x400) as u16);
            wide.push((0xDC00 + rest % 0x400) as u16);
        }
        assert(wide@ =~= before + utf16_units(c));
    }
    assert(s@.take(len as int) =~= s@);
    wide.push(0);
    wide
}

/// Turns a result code into an error that names the call.
pub fn check_amf(result: i32, context: &str) -> (checked: Result<(), FluxError>)
    ensures
        if result == AMF_OK {
            checked is Ok
        } else {
            checked matches Err(e) && e@ == ErrorView::EncoderInit(
                "AMF "@ + context@ + " failed with code "@ + signed_decimal(result as int),
            )
        },
{
    if result == AMF_OK {
        Ok(())
    } else {
        let mut text = "AMF ".to_string();
        text.append(context);
        text.append(" failed with code ");
        push_signed_decimal(&mut text, result);
        Err(FluxError::EncoderInit(text))
    }
}

/// The numbers of the interface, and how two halves share a word: the first in the low
/// bits.
pub proof fn law_interface_numbers(low: u32, high: u32)
    ensures
        AMF_OK == 0,
        AMF_INPUT_FULL == 4,
        AMF_EOF == 6,
        AMF_SURFACE_NV12 == 1,
        AMF_SURFACE_BGRA == 3,
        AMF_SURFACE_RGBA == 5,
        AMF_SURFACE_P010 == 10,
        AMF_VARIANT_BOOL == 1,
        AMF_VARIANT_INT64 == 2,
        AMF_VARIANT_SIZE == 5,
        AMF_VARIANT_RATE == 7,
        packed_word(low, high) % 0x1_0000_0000 == low,
        packed_word(low, high) / 0x1_0000_0000 == high,
{
}

/// A text in UTF-16 is its characters one after the other: one unit for a character
/// below 65536, and else a leading and a trailing surrogate with ten bits each.
pub proof fn law_wide_texts_are_joined(a: Seq<char>, b: Seq<char>, c: char)
    ensures
        utf16(a + b) == utf16(a) + utf16(b),
        utf16(seq![c]) == utf16_units(c),
        (c as int) < 0x1_0000 ==> utf16_units(c).len() == 1 && utf16_units(c)[0] == c as int,
        (c as int) >= 0x1_0000 ==> utf16_units(c).len() == 2 && 0xD800 <= utf16_units(c)[0] < 0xDC00
            && 0xDC00 <= utf16_units(c)[1] < 0xE000 && 0x1_0000 + (utf16_units(c)[0] - 0xD800) * 0x400
            + (utf16_units(c)[1] - 0xDC00) == c as int,
    decreases b.len(),
{
    if b.len() == 0 {
        assert(a + b =~= a);
        assert(utf16(a) + utf16(b) =~= utf16(a));
    } else {
        law_wide_texts_are_joined(a, b.drop_last(), c);
        assert((a + b).drop_last() =~= a + b.drop_last());
        assert(utf16(a + b) =~= utf16(a) + utf16(b));
    }
    assert(seq![c].drop_last() =~= Seq::empty());
    reveal_with_fuel(utf16, 2);
    assert(utf16(seq![c]) =~= utf16_units(c));
}

} // verus!
