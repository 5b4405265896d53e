//! Conversion of pixel data to tightly packed NV12: the luma rows, then the
//! interleaved chroma rows at half the height.

use vstd::prelude::*;
use vstd::slice::slice_subrange;

use crate::error::{ErrorView, FluxError};
use crate::frame::{CapturedFrame, CapturedView};
use crate::text::{decimal, push_decimal};
use crate::types::{push_resolution, resolution_text, PixelFormat, Resolution};

verus! {

/// Order of the channels in packed 32-bit pixels.
#[derive(Debug, Clone, Copy, PartialEq, Eq, Structural)]
pub enum ChannelOrder {
    Bgra,
    Rgba,
}

/// The first `count` rows, one after the other.
pub open spec fn stacked(row: spec_fn(int) -> Seq<u8>, count: nat) -> Seq<u8>
    decreases count,
{
    if count == 0 {
        Seq::empty()
    } else {
        stacked(row, (count - 1) as nat) + row(count - 1)
    }
}

/// A number brought into the range of a byte.
pub open spec fn clamped(n: int) -> u8 {
    if n < 0 {
        0
    } else if n > 255 {
        255
    } else {
        n as u8
    }
}

/// Limited-range BT.601 luma.
pub open spec fn luma(r: int, g: int, b: int) -> u8 {
    clamped((66 * r + 129 * g + 25 * b + 128) / 256 + 16)
}

/// Limited-range BT.601 blue difference.
pub open spec fn chroma_u(r: int, g: int, b: int) -> u8 {
    clamped((-38 * r - 74 * g + 112 * b + 128) / 256 + 128)
}

/// Limited-range BT.601 red difference.
pub open spec fn chroma_v(r: int, g: int, b: int) -> u8 {
    clamped((112 * r - 94 * g - 18 * b + 128) / 256 + 128)
}

/// Whether a number fits 32 bits with a sign.
pub open spec fn fits_i32(n: int) -> bool {
    i32::MIN <= n <= i32::MAX
}

/// Whether a weighted sum of three numbers and the rounding term can be formed
/// from left to right in 32 bits.
pub open spec fn summable(a: int, b: int, c: int) -> bool {
    fits_i32(a) && fits_i32(b) && fits_i32(a + b) && fits_i32(c) && fits_i32(a + b + c) && fits_i32(
        a + b + c + 128,
    )
}

fn scaled_and_clamped(sum: i32, base: i32) -> (value: u8)
    requires
        0 <= base <= 255,
    ensures
        value == clamped(sum as int / 256 + base),
{
    let shifted: i64 = (sum as i64 + 0x1_0000_0000) / 256 - 0x100_0000;
    assert(shifted == sum as int / 256);
    let value: i64 = shifted + base as i64;
    if value < 0 {
        0
    } else if value > 255 {
        255
    } else {
        value as u8
    }
}

/// Limited-range BT.601 luma of a colour.
pub fn bt601_luma(r: i32, g: i32, b: i32) -> (value: u8)
    requires
        summable(66 * r, 129 * g, 25 * b),
    ensures
        value == luma(r as int, g as int, b as int),
{
    scaled_and_clamped(66 * r + 129 * g + 25 * b + 128, 16)
}

/// Limited-range BT.601 blue difference of a colour.
pub fn bt601_u(r: i32, g: i32, b: i32) -> (value: u8)
    requires
        summable(-38 * r, -74 * g, 112 * b),
        fits_i32(74 * g),
    ensures
        value == chroma_u(r as int, g as int, b as int),
{
    scaled_and_clamped(-38 * r - 74 * g + 112 * b + 128, 128)
}

/// Limited-range BT.601 red difference of a colour.
pub fn bt601_v(r: i32, g: i32, b: i32) -> (value: u8)
    requires
        summable(112 * r, -94 * g, -18 * b),
        fits_i32(94 * g),
        fits_i32(18 * b),
    ensures
        value == chroma_v(r as int, g as int, b as int),
{
    scaled_and_clamped(112 * r - 94 * g - 18 * b + 128, 128)
}

/// Where a channel lies in a packed pixel: red, green or blue by index.
pub open spec fn channel_offset(order: ChannelOrder, channel: int) -> int {
    match order {
        ChannelOrder::Bgra => 2 - channel,
        ChannelOrder::Rgba => channel,
    }
}

/// A channel of the pixel at a position.
pub open spec fn channel_at(
    data: Seq<u8>,
    stride: int,
    order: ChannelOrder,
    x: int,
    y: int,
    channel: int,
) -> int {
    data[y * stride + x * 4 + channel_offset(order, channel)] as int
}

/// A channel averaged over the two by two pixels of a chroma sample.
pub open spec fn block_average(
    data: Seq<u8>,
    stride: int,
    order: ChannelOrder,
    cx: int,
    cy: int,
    channel: int,
) -> int {
    (channel_at(data, stride, order, cx * 2, cy * 2, channel) + channel_at(
        data,
        stride,
        order,
        cx * 2 + 1,
        cy * 2,
        channel,
    ) + channel_at(data, stride, order, cx * 2, cy * 2 + 1, channel) + channel_at(
        data,
        stride,
        order,
        cx * 2 + 1,
        cy * 2 + 1,
        channel,
    )) / 4
}

/// The luma of a pixel of a packed frame.
pub open spec fn pixel_luma(data: Seq<u8>, stride: int, order: ChannelOrder, x: int, y: int) -> u8 {
    luma(
        channel_at(data, stride, order, x, y, 0),
        channel_at(data, stride, order, x, y, 1),
        channel_at(data, stride, order, x, y, 2),
    )
}

/// A chroma byte of a packed frame: blue difference at even places, red
/// difference at odd ones. A last odd column has no sample of its own.
pub open spec fn chroma_byte(
    data: Seq<u8>,
    stride: int,
    order: ChannelOrder,
    w: int,
    k: int,
    cy: int,
) -> u8 {
    let r = block_average(data, stride, order, k / 2, cy, 0);
    let g = block_average(data, stride, order, k / 2, cy, 1);
    let b = block_average(data, stride, order, k / 2, cy, 2);
    if k >= w / 2 * 2 {
        0
    } else if k % 2 == 0 {
        chroma_u(r, g, b)
    } else {
        chroma_v(r, g, b)
    }
}

/// The first `count` bytes of a luma row of a packed frame.
pub open spec fn luma_row(data: Seq<u8>, stride: int, order: ChannelOrder, y: int, count: int) -> Seq<
    u8,
> {
    Seq::new(count as nat, |x: int| pixel_luma(data, stride, order, x, y))
}

/// The first `count` bytes of a chroma row of a packed frame.
pub open spec fn chroma_row(
    data: Seq<u8>,
    stride: int,
    order: ChannelOrder,
    w: int,
    cy: int,
    count: int,
) -> Seq<u8> {
    Seq::new(count as nat, |k: int| chroma_byte(data, stride, order, w, k, cy))
}

/// The NV12 image of a packed frame.
pub open spec fn nv12_of_packed(data: Seq<u8>, stride: int, w: int, h: int, order: ChannelOrder) -> Seq<
    u8,
> {
    stacked(|y: int| luma_row(data, stride, order, y, w), h as nat) + stacked(
        |cy: int| chroma_row(data, stride, order, w, cy, w),
        (h / 2) as nat,
    )
}

/// The message for a packed buffer that does not hold the frame.
pub open spec fn packed_too_small(len: nat, stride: nat, h: nat) -> Seq<char> {
    "RGB buffer too small: "@ + decimal(len) + " bytes, need stride "@ + decimal(stride) + " * height "@
        + decimal(h)
}

proof fn lemma_pixel_inside(len: int, stride: int, w: int, h: int, x: int, y: int)
    requires
        stride >= w * 4,
        stride * h <= len,
        0 <= x < w,
        0 <= y < h,
    ensures
        0 <= y * stride,
        y * stride + x * 4 + 4 <= len,
{
    assert((y + 1) * stride == y * stride + stride) by (nonlinear_arith);
    assert(0 <= y * stride && (y + 1) * stride <= stride * h) by (nonlinear_arith)
        requires
            0 <= y < h,
            0 <= stride,
    ;
}

/// The pixel at a position, as red, green and blue.
fn pixel(data: &[u8], stride: usize, w: Ghost<int>, h: Ghost<int>, order: ChannelOrder, x: usize, y: usize) -> (rgb: (
    i32,
    i32,
    i32,
))
    requires
        stride >= w@ * 4,
        stride * h@ <= data@.len(),
        0 <= x < w@,
        0 <= y < h@,
    ensures
        rgb.0 == channel_at(data@, stride as int, order, x as int, y as int, 0),
        rgb.1 == channel_at(data@, stride as int, order, x as int, y as int, 1),
        rgb.2 == channel_at(data@, stride as int, order, x as int, y as int, 2),
        0 <= rgb.0 <= 255,
        0 <= rgb.1 <= 255,
        0 <= rgb.2 <= 255,
{
    let len: usize = data.len();
    proof {
        lemma_pixel_inside(len as int, stride as int, w@, h@, x as int, y as int);
    }
    let base: usize = y * stride + x * 4;
    let (red, blue): (usize, usize) = match order {
        ChannelOrder::Bgra => (2, 0),
        ChannelOrder::Rgba => (0, 2),
    };
    (data[base + red] as i32, data[base + 1] as i32, data[base + blue] as i32)
}

/// The NV12 image of a packed 32-bit frame, chroma averaged over blocks of two
/// by two pixels.
pub fn packed_rgb_to_nv12(data: &[u8], stride: usize, w: usize, h: usize, order: ChannelOrder) -> (result:
    Result<Vec<u8>, String>)
    requires
        w * 4 <= usize::MAX,
        stride >= w * 4 ==> stride * h <= usize::MAX,
    ensures
        if stride < w * 4 || data@.len() < stride * h {
            result matches Err(text) && text@ == packed_too_small(
                data@.len(),
                stride as nat,
                h as nat,
            )
        } else {
            result matches Ok(nv12) && nv12@ == nv12_of_packed(
                data@,
                stride as int,
                w as int,
                h as int,
                order,
            )
        },
{
    let row_bytes: usize = w * 4;
    if stride < row_bytes || data.len() < stride * h {
        let mut text = "RGB buffer too small: ".to_string();
        push_decimal(&mut text, data.len() as u64);
        text.append(" bytes, need stride ");
        push_decimal(&mut text, stride as u64);
        text.append(" * height ");
        push_decimal(&mut text, h as u64);
        return Err(text);
    }
    let ghost luma_of = |y: int| luma_row(data@, stride as int, order, y, w as int);
    let ghost chroma_of = |cy: int| chroma_row(data@, stride as int, order, w as int, cy, w as int);
    let mut nv12: Vec<u8> = Vec::new();
    for y in 0..h
        invariant
            stride >= w * 4,
            stride * h <= data@.len(),
            luma_of == (|y: int| luma_row(data@, stride as int, order, y, w as int)),
            nv12@ == stacked(luma_of, y as nat),
    {
        for x in 0..w
            invariant
                stride >= w * 4,
                stride * h <= data@.len(),
                0 <= y < h,
                nv12@ == stacked(luma_of, y as nat) + luma_row(
                    data@,
                    stride as int,
                    order,
                    y as int,
                    x as int,
                ),
        {
            let (r, g, b) = pixel(data, stride, Ghost(w as int), Ghost(h as int), order, x, y);
            nv12.push(bt601_luma(r, g, b));
            assert(nv12@ =~= stacked(luma_of, y as nat) + luma_row(
                data@,
                stride as int,
                order,
                y as int,
                x + 1,
            ));
        }
    }
    let ghost lumas = nv12@;
    for cy in 0..(h / 2)
        invariant
            stride >= w * 4,
            stride * h <= data@.len(),
            chroma_of == (|cy: int|
                chroma_row(data@, stride as int, order, w as int, cy, w as int)),
            nv12@ == lumas + stacked(chroma_of, cy as nat),
    {
        let ghost above = nv12@;
        for cx in 0..(w / 2)
            invariant
                stride >= w * 4,
                stride * h <= data@.len(),
                0 <= cy < h / 2,
                nv12@ == above + chroma_row(
                    data@,
                    stride as int,
                    order,
                    w as int,
                    cy as int,
                    cx * 2,
                ),
        {
            let (r0, g0, b0) = pixel(data, stride, Ghost(w as int), Ghost(h as int), order, cx * 2, cy * 2);
            let (r1, g1, b1) = pixel(data, stride, Ghost(w as int), Ghost(h as int), order, cx * 2 + 1, cy * 2);
            let (r2, g2, b2) = pixel(data, stride, Ghost(w as int), Ghost(h as int), order, cx * 2, cy * 2 + 1);
            let (r3, g3, b3) = pixel(data, stride, Ghost(w as int), Ghost(h as int), order, cx * 2 + 1, cy * 2 + 1);
            let r: i32 = (r0 + r1 + r2 + r3) / 4;
            let g: i32 = (g0 + g1 + g2 + g3) / 4;
            let b: i32 = (b0 + b1 + b2 + b3) / 4;
            assert(r == block_average(data@, stride as int, order, cx as int, cy as int, 0));
            assert(g == block_average(data@, stride as int, order, cx as int, cy as int, 1));
            assert(b == block_average(data@, stride as int, order, cx as int, cy as int, 2));
            nv12.push(bt601_u(r, g, b));
            nv12.push(bt601_v(r, g, b));
            assert((cx * 2 + 1) / 2 == cx);
            assert(nv12@ =~= above + chroma_row(
                data@,
                stride as int,
                order,
                w as int,
                cy as int,
                (cx + 1) * 2,
            ));
        }
        if w % 2 == 1 {
            nv12.push(0);
        }
        assert(nv12@ =~= above + chroma_of(cy as int));
        assert(nv12@ =~= lumas + stacked(chroma_of, (cy + 1) as nat));
    }
    Ok(nv12)
}

/// Rows of `w` bytes that start `stride` bytes apart, from `base` on.
pub open spec fn rows_of(data: Seq<u8>, base: int, stride: int, w: int) -> spec_fn(int) -> Seq<u8> {
    |row: int| data.subrange(base + row * stride, base + row * stride + w)
}

/// The larger of two numbers.
pub open spec fn larger(a: int, b: int) -> int {
    if a > b {
        a
    } else {
        b
    }
}

proof fn lemma_row_fits(stride: int, row: int, count: int)
    requires
        0 <= row < count,
        0 <= stride,
    ensures
        0 <= row * stride,
        row * stride + stride <= stride * count,
{
    assert(0 <= row * stride && row * stride + stride <= stride * count) by (nonlinear_arith)
        requires
            0 <= row < count,
            0 <= stride,
    ;
}

/// Appends `count` rows of `w` bytes that start `stride` bytes apart.
fn push_rows(data: &[u8], base: usize, stride: usize, w: usize, count: usize, out: &mut Vec<u8>)
    requires
        w <= stride,
        base + stride * count <= data@.len(),
    ensures
        final(out)@ == old(out)@ + stacked(
            rows_of(data@, base as int, stride as int, w as int),
            count as nat,
        ),
{
    let len: usize = data.len();
    let ghost row_at = rows_of(data@, base as int, stride as int, w as int);
    let ghost before = out@;
    for row in 0..count
        invariant
            w <= stride,
            base + stride * count <= len,
            len == data@.len(),
            row_at == rows_of(data@, base as int, stride as int, w as int),
            out@ == before + stacked(row_at, row as nat),
    {
        proof {
            lemma_row_fits(stride as int, row as int, count as int);
        }
        let start: usize = base + row * stride;
        let ghost above = out@;
        out.extend_from_slice(slice_subrange(data, start, start + w));
        assert(out@ =~= above + row_at(row as int));
        assert(out@ =~= before + stacked(row_at, (row + 1) as nat));
    }
}

/// The NV12 image inside a padded one, whose rows are never taken to be shorter
/// than the frame is wide.
pub open spec fn nv12_of_padded(data: Seq<u8>, stride: int, w: int, h: int) -> Seq<u8> {
    let pitch = larger(stride, w);
    stacked(rows_of(data, 0, pitch, w), h as nat) + stacked(
        rows_of(data, pitch * h, pitch, w),
        (h / 2) as nat,
    )
}

/// Tightly packs an NV12 image whose rows may be padded.
pub fn passthrough_nv12(data: &[u8], stride: usize, w: usize, h: usize) -> (result: Result<
    Vec<u8>,
    String,
>)
    requires
        larger(stride as int, w as int) * h + larger(stride as int, w as int) * (h / 2) <= usize::MAX,
    ensures
        ({
            let pitch = larger(stride as int, w as int);
            if data@.len() < pitch * h + pitch * (h / 2) {
                result matches Err(text) && text@ == "NV12 buffer too small: "@ + decimal(data@.len())
                    + " bytes"@
            } else {
                result matches Ok(nv12) && nv12@ == nv12_of_padded(
                    data@,
                    stride as int,
                    w as int,
                    h as int,
                )
            }
        }),
{
    let pitch: usize = if stride > w {
        stride
    } else {
        w
    };
    assert(0 <= pitch * h && 0 <= pitch * (h / 2)) by (nonlinear_arith)
        requires
            0 <= pitch,
            0 <= h,
    ;
    if data.len() < pitch * h + pitch * (h / 2) {
        let mut text = "NV12 buffer too small: ".to_string();
        push_decimal(&mut text, data.len() as u64);
        text.append(" bytes");
        return Err(text);
    }
    let mut out: Vec<u8> = Vec::new();
    push_rows(data, 0, pitch, w, h, &mut out);
    push_rows(data, pitch * h, pitch, w, h / 2, &mut out);
    assert(out@ =~= nv12_of_padded(data@, stride as int, w as int, h as int));
    Ok(out)
}

/// The first `count` bytes of an interleaved chroma row of a planar image. A
/// last odd column has no sample of its own.
pub open spec fn planar_chroma_row(
    data: Seq<u8>,
    pitch: int,
    w: int,
    h: int,
    row: int,
    count: int,
) -> Seq<u8> {
    let c_stride = pitch / 2;
    let u_base = pitch * h;
    let v_base = pitch * h + c_stride * (h / 2);
    Seq::new(
        count as nat,
        |k: int|
            if k >= w / 2 * 2 {
                0u8
            } else if k % 2 == 0 {
                data[u_base + row * c_stride + k / 2]
            } else {
                data[v_base + row * c_stride + k / 2]
            },
    )
}

/// The NV12 image of a planar one: luma, then the two chroma planes interleaved.
pub open spec fn nv12_of_planar(data: Seq<u8>, stride: int, w: int, h: int) -> Seq<u8> {
    let pitch = larger(stride, w);
    stacked(rows_of(data, 0, pitch, w), h as nat) + stacked(
        |row: int| planar_chroma_row(data, pitch, w, h, row, w),
        (h / 2) as nat,
    )
}

/// The size of a planar image: luma and two chroma planes of half the stride and
/// half the height.
pub open spec fn planar_size(stride: int, w: int, h: int) -> int {
    let pitch = larger(stride, w);
    pitch * h + 2 * (pitch / 2 * (h / 2))
}

/// Interleaves the chroma planes of a planar image.
pub fn i420_to_nv12(data: &[u8], stride: usize, w: usize, h: usize) -> (result: Result<
    Vec<u8>,
    String,
>)
    requires
        planar_size(stride as int, w as int, h as int) <= usize::MAX,
    ensures
        if data@.len() < planar_size(stride as int, w as int, h as int) {
            result matches Err(text) && text@ == "I420 buffer too small: "@ + decimal(data@.len())
                + " bytes"@
        } else {
            result matches Ok(nv12) && nv12@ == nv12_of_planar(
                data@,
                stride as int,
                w as int,
                h as int,
            )
        },
{
    let pitch: usize = if stride > w {
        stride
    } else {
        w
    };
    let ch: usize = h / 2;
    let c_stride: usize = pitch / 2;
    assert(0 <= pitch * h && 0 <= c_stride * ch) by (nonlinear_arith)
        requires
            0 <= pitch,
            0 <= h,
            0 <= c_stride,
            0 <= ch,
    ;
    let y_size: usize = pitch * h;
    let c_size: usize = c_stride * ch;
    if data.len() < y_size + 2 * c_size {
        let mut text = "I420 buffer too small: ".to_string();
        push_decimal(&mut text, data.len() as u64);
        text.append(" bytes");
        return Err(text);
    }
    let mut out: Vec<u8> = Vec::new();
    push_rows(data, 0, pitch, w, h, &mut out);
    let ghost lumas = out@;
    let ghost chroma_of = |row: int|
        planar_chroma_row(data@, pitch as int, w as int, h as int, row, w as int);
    for row in 0..ch
        invariant
            ch == h / 2,
            c_stride == pitch / 2,
            w <= pitch,
            y_size == pitch * h,
            c_size == c_stride * ch,
            y_size + 2 * c_size <= data@.len(),
            data@.len() <= usize::MAX,
            chroma_of == (|row: int|
                planar_chroma_row(data@, pitch as int, w as int, h as int, row, w as int)),
            out@ == lumas + stacked(chroma_of, row as nat),
    {
        let ghost above = out@;
        proof {
            lemma_row_fits(c_stride as int, row as int, ch as int);
        }
        for col in 0..(w / 2)
            invariant
                ch == h / 2,
                c_stride == pitch / 2,
                w <= pitch,
                y_size == pitch * h,
                c_size == c_stride * ch,
                y_size + 2 * c_size <= data@.len(),
                data@.len() <= usize::MAX,
                0 <= row * c_stride,
                row * c_stride + c_stride <= c_size,
                out@ == above + planar_chroma_row(
                    data@,
                    pitch as int,
                    w as int,
                    h as int,
                    row as int,
                    col * 2,
                ),
        {
            out.push(data[y_size + row * c_stride + col]);
            out.push(data[y_size + c_size + row * c_stride + col]);
            assert((col * 2 + 1) / 2 == col);
            assert(out@ =~= above + planar_chroma_row(
                data@,
                pitch as int,
                w as int,
                h as int,
                row as int,
                (col + 1) * 2,
            ));
        }
        if w % 2 == 1 {
            out.push(0);
        }
        assert(out@ =~= above + chroma_of(row as int));
        assert(out@ =~= lumas + stacked(chroma_of, (row + 1) as nat));
    }
    assert(out@ =~= nv12_of_planar(data@, stride as int, w as int, h as int));
    Ok(out)
}

/// Whether the sizes that a conversion computes can be represented.
pub open spec fn conversion_fits(frame: CapturedView) -> bool {
    let w = frame.resolution.width as int;
    let h = frame.resolution.height as int;
    let stride = frame.stride as int;
    match frame.format {
        PixelFormat::Bgra8 | PixelFormat::Rgba8 => w * 4 <= usize::MAX && (stride >= w * 4 ==> stride
            * h <= usize::MAX),
        PixelFormat::Nv12 => larger(stride, w) * h + larger(stride, w) * (h / 2) <= usize::MAX,
        PixelFormat::I420 => planar_size(stride, w, h) <= usize::MAX,
        PixelFormat::P010 => true,
    }
}

/// Why a frame cannot be converted for an encoder of a given size, if it cannot.
pub open spec fn conversion_refusal(
    frame: CapturedView,
    width: u32,
    height: u32,
    handle_only: Seq<char>,
) -> Option<Seq<char>> {
    let w = width as int;
    let h = height as int;
    let stride = frame.stride as int;
    let len = frame.data.len();
    if frame.data.len() == 0 && frame.gpu_handle is Some {
        Some(handle_only)
    } else if frame.data.len() == 0 {
        Some("frame has no CPU pixel data to upload"@)
    } else if frame.resolution != (Resolution { width, height }) {
        Some(
            "frame resolution "@ + resolution_text(frame.resolution) + " does not match encoder "@
                + resolution_text((Resolution { width, height })),
        )
    } else {
        match frame.format {
            PixelFormat::Bgra8 | PixelFormat::Rgba8 => if stride < w * 4 || len < stride * h {
                Some(packed_too_small(len, frame.stride as nat, height as nat))
            } else {
                None
            },
            PixelFormat::Nv12 => if len < larger(stride, w) * h + larger(stride, w) * (h / 2) {
                Some("NV12 buffer too small: "@ + decimal(len) + " bytes"@)
            } else {
                None
            },
            PixelFormat::I420 => if len < planar_size(stride, w, h) {
                Some("I420 buffer too small: "@ + decimal(len) + " bytes"@)
            } else {
                None
            },
            PixelFormat::P010 => Some("P010/10-bit input is not supported until the HDR phase"@),
        }
    }
}

/// The NV12 image of a frame that can be converted.
pub open spec fn nv12_image(frame: CapturedView) -> Seq<u8> {
    let w = frame.resolution.width as int;
    let h = frame.resolution.height as int;
    let stride = frame.stride as int;
    match frame.format {
        PixelFormat::Bgra8 => nv12_of_packed(frame.data, stride, w, h, ChannelOrder::Bgra),
        PixelFormat::Rgba8 => nv12_of_packed(frame.data, stride, w, h, ChannelOrder::Rgba),
        PixelFormat::Nv12 => nv12_of_padded(frame.data, stride, w, h),
        PixelFormat::I420 | PixelFormat::P010 => nv12_of_planar(frame.data, stride, w, h),
    }
}

/// The NV12 image of a captured frame for an encoder of a given size.
/// `handle_only` is what to say of a frame that lies in graphics memory alone.
pub fn convert_frame(frame: &CapturedFrame, width: u32, height: u32, handle_only: &str) -> (result:
    Result<Vec<u8>, FluxError>)
    requires
        frame.data@.len() > 0 && frame.resolution == (Resolution { width, height })
            ==> conversion_fits(frame@),
    ensures
        match conversion_refusal(frame@, width, height, handle_only@) {
            Some(reason) => result matches Err(e) && e@ == (ErrorView::Encode {
                frame: frame.sequence,
                reason,
            }),
            None => result matches Ok(nv12) && nv12@ == nv12_image(frame@),
        },
{
    if frame.gpu_handle.is_some() && frame.data.len() == 0 {
        return Err(FluxError::Encode { frame: frame.sequence, reason: handle_only.to_string() });
    }
    if frame.data.len() == 0 {
        return Err(
            FluxError::Encode {
                frame: frame.sequence,
                reason: "frame has no CPU pixel data to upload".to_string(),
            },
        );
    }
    if frame.resolution.width != width || frame.resolution.height != height {
        let mut reason = "frame resolution ".to_string();
        push_resolution(&mut reason, frame.resolution);
        reason.append(" does not match encoder ");
        push_resolution(&mut reason, Resolution { width, height });
        return Err(FluxError::Encode { frame: frame.sequence, reason });
    }
    let w: usize = width as usize;
    let h: usize = height as usize;
    let stride: usize = frame.stride as usize;
    let converted: Result<Vec<u8>, String> = match frame.format {
        PixelFormat::Bgra8 => packed_rgb_to_nv12(
            frame.data.as_slice(),
            stride,
            w,
            h,
            ChannelOrder::Bgra,
        ),
        PixelFormat::Rgba8 => packed_rgb_to_nv12(
            frame.data.as_slice(),
            stride,
            w,
            h,
            ChannelOrder::Rgba,
        ),
        PixelFormat::Nv12 => passthrough_nv12(frame.data.as_slice(), stride, w, h),
        PixelFormat::I420 => i420_to_nv12(frame.data.as_slice(), stride, w, h),
        PixelFormat::P010 => Err(
            "P010/10-bit input is not supported until the HDR phase".to_string(),
        ),
    };
    match converted {
        Ok(nv12) => Ok(nv12),
        Err(reason) => Err(FluxError::Encode { frame: frame.sequence, reason }),
    }
}

/// The NV12 image of a captured frame for a CPU upload.
pub fn frame_to_nv12(frame: &CapturedFrame, width: u32, height: u32) -> (result: Result<
    Vec<u8>,
    FluxError,
>)
    requires
        frame.data@.len() > 0 && frame.resolution == (Resolution { width, height })
            ==> conversion_fits(frame@),
    ensures
        match conversion_refusal(
            frame@,
            width,
            height,
            "CPU upload path needs CPU pixel data; DMA-BUF import not yet wired"@,
        ) {
            Some(reason) => result matches Err(e) && e@ == (ErrorView::Encode {
                frame: frame.sequence,
                reason,
            }),
            None => result matches Ok(nv12) && nv12@ == nv12_image(frame@),
        },
{
    convert_frame(
        frame,
        width,
        height,
        "CPU upload path needs CPU pixel data; DMA-BUF import not yet wired",
    )
}

proof fn lemma_stacked_len(row: spec_fn(int) -> Seq<u8>, count: nat, w: nat)
    requires
        forall|i: int| 0 <= i < count ==> (#[trigger] row(i)).len() == w,
    ensures
        stacked(row, count).len() == count * w,
    decreases count,
{
    if count > 0 {
        lemma_stacked_len(row, (count - 1) as nat, w);
        assert(count * w == (count - 1) * w + w) by (nonlinear_arith)
            requires
                count > 0,
        ;
    } else {
        assert(0 * w == 0);
    }
}

/// The NV12 image of a packed frame has a byte for each pixel and one row of
/// chroma for every two rows.
pub proof fn law_nv12_size(data: Seq<u8>, stride: int, w: int, h: int, order: ChannelOrder)
    requires
        w >= 0,
        h >= 0,
    ensures
        nv12_of_packed(data, stride, w, h, order).len() == w * h + w * (h / 2),
{
    let luma_of = |y: int| luma_row(data, stride, order, y, w);
    let chroma_of = |cy: int| chroma_row(data, stride, order, w, cy, w);
    lemma_stacked_len(luma_of, h as nat, w as nat);
    lemma_stacked_len(chroma_of, (h / 2) as nat, w as nat);
    assert((h as nat) * (w as nat) == w * h) by (nonlinear_arith)
        requires
            w >= 0,
            h >= 0,
    ;
    let ch = h / 2;
    assert((ch as nat) * (w as nat) == w * ch) by (nonlinear_arith)
        requires
            w >= 0,
            ch >= 0,
    ;
}

/// A frame of one colour has that colour's luma at every pixel, and its two
/// differences in every chroma sample.
pub proof fn law_solid_colour_planes(
    data: Seq<u8>,
    stride: int,
    w: int,
    h: int,
    order: ChannelOrder,
    r: u8,
    g: u8,
    b: u8,
)
    requires
        forall|x: int, y: int, channel: int|
            0 <= x < w && 0 <= y < h && 0 <= channel < 3 ==> #[trigger] channel_at(
                data,
                stride,
                order,
                x,
                y,
                channel,
            ) == if channel == 0 {
                r as int
            } else if channel == 1 {
                g as int
            } else {
                b as int
            },
    ensures
        forall|x: int, y: int|
            0 <= x < w && 0 <= y < h ==> #[trigger] pixel_luma(data, stride, order, x, y) == luma(
                r as int,
                g as int,
                b as int,
            ),
        forall|k: int, cy: int|
            0 <= k < w / 2 * 2 && 0 <= cy < h / 2 ==> #[trigger] chroma_byte(
                data,
                stride,
                order,
                w,
                k,
                cy,
            ) == if k % 2 == 0 {
                chroma_u(r as int, g as int, b as int)
            } else {
                chroma_v(r as int, g as int, b as int)
            },
{
    assert forall|k: int, cy: int|
        0 <= k < w / 2 * 2 && 0 <= cy < h / 2 implies #[trigger] chroma_byte(
        data,
        stride,
        order,
        w,
        k,
        cy,
    ) == if k % 2 == 0 {
        chroma_u(r as int, g as int, b as int)
    } else {
        chroma_v(r as int, g as int, b as int)
    } by {
        let cx = k / 2;
        assert(block_average(data, stride, order, cx, cy, 0) == r);
        assert(block_average(data, stride, order, cx, cy, 1) == g);
        assert(block_average(data, stride, order, cx, cy, 2) == b);
    }
}

/// A byte of stacked rows stands in its own row and column.
proof fn lemma_stacked_at(row: spec_fn(int) -> Seq<u8>, count: nat, w: nat, x: int, y: int)
    requires
        forall|i: int| 0 <= i < count ==> (#[trigger] row(i)).len() == w,
        0 <= x < w,
        0 <= y < count,
    ensures
        0 <= y * w + x < stacked(row, count).len(),
        stacked(row, count).len() == count * w,
        stacked(row, count)[y * w + x] == row(y)[x],
    decreases count,
{
    let front = (count - 1) as nat;
    lemma_stacked_len(row, count, w);
    lemma_stacked_len(row, front, w);
    assert(0 <= y * w && y * w + w <= count * w && (y < front ==> y * w + w <= front * w)
        && front * w + w == count * w) by (nonlinear_arith)
        requires
            0 <= y < count,
            front == count - 1,
            w >= 0,
    ;
    if y < front {
        lemma_stacked_at(row, front, w, x, y);
    }
}

/// The planes of a packed frame, position by position: the luma at `x`, `y` is made of
/// the source pixel at `x`, `y`, and stands in the same row and column.
pub proof fn law_luma_keeps_its_place(
    data: Seq<u8>,
    stride: int,
    w: int,
    h: int,
    order: ChannelOrder,
    x: int,
    y: int,
)
    requires
        0 <= x < w,
        0 <= y < h,
        stride >= w * 4,
        data.len() >= stride * h,
    ensures
        ({
            let at = y * stride + x * 4;
            let (r, b) = if order == ChannelOrder::Bgra {
                (data[at + 2] as int, data[at] as int)
            } else {
                (data[at] as int, data[at + 2] as int)
            };
            let g = data[at + 1] as int;
            let image = nv12_of_packed(data, stride, w, h, order);
            &&& 0 <= at && at + 4 <= data.len()
            &&& 0 <= y * w + x < w * h <= image.len()
            &&& image[y * w + x] as int == 16 + (66 * r + 129 * g + 25 * b + 128) / 256
        }),
{
    let luma_of = |v: int| luma_row(data, stride, order, v, w);
    let chroma_of = |cy: int| chroma_row(data, stride, order, w, cy, w);
    lemma_pixel_inside(data.len() as int, stride, w, h, x, y);
    lemma_stacked_at(luma_of, h as nat, w as nat, x, y);
    law_nv12_size(data, stride, w, h, order);
    assert((h as nat) * (w as nat) == w * h) by (nonlinear_arith)
        requires
            w >= 0,
            h >= 0,
    ;
    let ch = h / 2;
    assert(0 <= w * ch) by (nonlinear_arith)
        requires
            w >= 0,
            ch >= 0,
    ;
}

/// The chroma of a packed frame: the two bytes behind the luma that stand at the column
/// pair `cx` of the row `cy` are made of the four source pixels of that block, each
/// channel averaged over them, blue difference first.
pub proof fn law_chroma_keeps_its_place(
    data: Seq<u8>,
    stride: int,
    w: int,
    h: int,
    order: ChannelOrder,
    cx: int,
    cy: int,
)
    requires
        0 <= cx < w / 2,
        0 <= cy < h / 2,
        stride >= w * 4,
        data.len() >= stride * h,
    ensures
        ({
            let red = if order == ChannelOrder::Bgra {
                2int
            } else {
                0
            };
            let mean = |channel: int|
                {
                    let upper = 2 * cy * stride + 2 * cx * 4 + channel;
                    let lower = (2 * cy + 1) * stride + 2 * cx * 4 + channel;
                    (data[upper] as int + data[upper + 4] as int + data[lower] as int + data[lower
                        + 4] as int) / 4
                };
            let (r, g, b) = (mean(red), mean(1), mean(2 - red));
            let at = w * h + cy * w + 2 * cx;
            let image = nv12_of_packed(data, stride, w, h, order);
            &&& w * h <= at && at + 1 < image.len()
            &&& image[at] as int == 128 + (112 * b - 38 * r - 74 * g + 128) / 256
            &&& image[at + 1] as int == 128 + (112 * r - 94 * g - 18 * b + 128) / 256
        }),
{
    let luma_of = |v: int| luma_row(data, stride, order, v, w);
    let chroma_of = |v: int| chroma_row(data, stride, order, w, v, w);
    let ch = h / 2;
    lemma_stacked_len(luma_of, h as nat, w as nat);
    lemma_stacked_at(chroma_of, ch as nat, w as nat, 2 * cx, cy);
    lemma_stacked_at(chroma_of, ch as nat, w as nat, 2 * cx + 1, cy);
    assert((h as nat) * (w as nat) == w * h) by (nonlinear_arith)
        requires
            w >= 0,
            h >= 0,
    ;
    assert((2 * cx) / 2 == cx && (2 * cx + 1) / 2 == cx);
    assert(2 * cx + 1 < w / 2 * 2);
    assert(cx * 2 == 2 * cx && cy * 2 == 2 * cy);
}

/// A grey pixel has no colour: where the three channels of a block are the same
/// everywhere, both differences are 128. White is 235 and black is 16.
pub proof fn law_grey_has_no_chroma(v: int)
    requires
        0 <= v <= 255,
    ensures
        chroma_u(v, v, v) == 128,
        chroma_v(v, v, v) == 128,
        16 <= luma(v, v, v) <= 235,
        luma(255, 255, 255) == 235,
        luma(0, 0, 0) == 16,
{
}

/// The brighter a channel, the brighter the pixel; more blue raises the blue difference
/// and lowers the red one, and the other way round.
pub proof fn law_colours_move_the_planes(r: int, g: int, b: int, more: int)
    requires
        0 <= r,
        0 <= g,
        0 <= b,
        0 <= more,
        r + more <= 255,
        g + more <= 255,
        b + more <= 255,
    ensures
        luma(r, g, b) <= luma(r + more, g, b),
        luma(r, g, b) <= luma(r, g + more, b),
        luma(r, g, b) <= luma(r, g, b + more),
        chroma_u(r, g, b) <= chroma_u(r, g, b + more),
        chroma_u(r, g, b) >= chroma_u(r + more, g, b),
        chroma_u(r, g, b) >= chroma_u(r, g + more, b),
        chroma_v(r, g, b) <= chroma_v(r + more, g, b),
        chroma_v(r, g, b) >= chroma_v(r, g + more, b),
        chroma_v(r, g, b) >= chroma_v(r, g, b + more),
{
}

/// A padded NV12 image keeps every byte of its rows at its row and column, in the luma
/// plane and in the chroma plane behind it.
pub proof fn law_padded_rows_keep_their_place(
    data: Seq<u8>,
    stride: int,
    w: int,
    h: int,
    x: int,
    y: int,
)
    requires
        0 <= x < w,
        0 <= y < h + h / 2,
        stride >= 0,
        stride < w ==> data.len() >= w * h + w * (h / 2),
        stride >= w ==> data.len() >= stride * h + stride * (h / 2),
    ensures
        nv12_of_padded(data, stride, w, h).len() == w * h + w * (h / 2),
        0 <= y * w + x < w * h + w * (h / 2),
        stride >= w ==> nv12_of_padded(data, stride, w, h)[y * w + x] == data[y * stride + x],
        stride < w ==> nv12_of_padded(data, stride, w, h)[y * w + x] == data[y * w + x],
{
    let pitch = larger(stride, w);
    let ch = h / 2;
    let lumas = rows_of(data, 0, pitch, w);
    let chromas = rows_of(data, pitch * h, pitch, w);
    assert forall|i: int| 0 <= i < h implies (#[trigger] lumas(i)).len() == w by {
        lemma_row_fits(pitch, i, h);
        assert(0 <= pitch * ch) by (nonlinear_arith)
            requires
                0 <= pitch,
                0 <= ch,
        ;
    }
    assert forall|i: int| 0 <= i < ch implies (#[trigger] chromas(i)).len() == w by {
        lemma_row_fits(pitch, i, ch);
        assert(0 <= pitch * h) by (nonlinear_arith)
            requires
                0 <= pitch,
                0 <= h,
        ;
    }
    lemma_stacked_len(lumas, h as nat, w as nat);
    lemma_stacked_len(chromas, ch as nat, w as nat);
    assert((h as nat) * (w as nat) == w * h && (ch as nat) * (w as nat) == w * ch) by (nonlinear_arith)
        requires
            w >= 0,
            h >= 0,
            ch >= 0,
    ;
    assert(0 <= w * h && 0 <= w * ch) by (nonlinear_arith)
        requires
            w >= 0,
            h >= 0,
            ch >= 0,
    ;
    if y < h {
        lemma_stacked_at(lumas, h as nat, w as nat, x, y);
        lemma_row_fits(pitch, y, h);
        assert(0 <= pitch * ch) by (nonlinear_arith)
            requires
                0 <= pitch,
                0 <= ch,
        ;
        assert(lumas(y)[x] == data[y * pitch + x]);
    } else {
        let row = y - h;
        lemma_stacked_at(chromas, ch as nat, w as nat, x, row);
        lemma_row_fits(pitch, row, ch);
        assert(y * w == h * w + row * w && y * pitch == pitch * h + row * pitch && h * w == w * h)
            by (nonlinear_arith)
            requires
                y == h + row,
        ;
        assert(0 <= pitch * h) by (nonlinear_arith)
            requires
                0 <= pitch,
                0 <= h,
        ;
        assert(chromas(row)[x] == data[pitch * h + row * pitch + x]);
    }
}

/// A planar image keeps its luma at its row and column, and every sample of its chroma
/// planes comes to stand in its row, at twice its column: the first plane at the even
/// places, the second one beside it.
pub proof fn law_planar_samples_keep_their_place(
    data: Seq<u8>,
    stride: int,
    w: int,
    h: int,
    x: int,
    y: int,
    cx: int,
    cy: int,
)
    requires
        0 <= x < w <= stride,
        0 <= y < h,
        0 <= cx < w / 2,
        0 <= cy < h / 2,
        data.len() >= stride * h + 2 * (stride / 2 * (h / 2)),
    ensures
        ({
            let image = nv12_of_planar(data, stride, w, h);
            let first = stride * h + cy * (stride / 2) + cx;
            let second = first + (stride / 2) * (h / 2);
            let at = w * h + cy * w + 2 * cx;
            &&& image.len() == w * h + w * (h / 2)
            &&& image[y * w + x] == data[y * stride + x]
            &&& image[at] == data[first]
            &&& image[at + 1] == data[second]
        }),
{
    let ch = h / 2;
    let half = stride / 2;
    let lumas = rows_of(data, 0, stride, w);
    let chromas = |row: int| planar_chroma_row(data, stride, w, h, row, w);
    assert(0 <= half * ch) by (nonlinear_arith)
        requires
            0 <= half,
            0 <= ch,
    ;
    assert forall|i: int| 0 <= i < h implies (#[trigger] lumas(i)).len() == w by {
        lemma_row_fits(stride, i, h);
    }
    lemma_stacked_len(lumas, h as nat, w as nat);
    lemma_stacked_len(chromas, ch as nat, w as nat);
    assert((h as nat) * (w as nat) == w * h && (ch as nat) * (w as nat) == w * ch) by (nonlinear_arith)
        requires
            w >= 0,
            h >= 0,
            ch >= 0,
    ;
    assert(0 <= w * h && 0 <= w * ch) by (nonlinear_arith)
        requires
            w >= 0,
            h >= 0,
            ch >= 0,
    ;
    lemma_stacked_at(lumas, h as nat, w as nat, x, y);
    lemma_row_fits(stride, y, h);
    assert(lumas(y)[x] == data[y * stride + x]);
    lemma_stacked_at(chromas, ch as nat, w as nat, 2 * cx, cy);
    lemma_stacked_at(chromas, ch as nat, w as nat, 2 * cx + 1, cy);
    assert((2 * cx) / 2 == cx && (2 * cx + 1) / 2 == cx);
}

/// What the image of a frame is made of, by its format: the two packed formats differ in
/// which of the outer channels is red, the two others are taken over byte by byte. An
/// image has a byte for each pixel, and one row of chroma for every two rows.
pub proof fn law_images_follow_the_format(frame: CapturedView, x: int, y: int)
    requires
        0 <= x < frame.resolution.width,
        0 <= y < frame.resolution.height,
        frame.stride >= frame.resolution.width * 4,
        frame.data.len() >= frame.stride * frame.resolution.height + frame.stride * (
        frame.resolution.height as int / 2),
    ensures
        ({
            let w = frame.resolution.width as int;
            let h = frame.resolution.height as int;
            let at = y * frame.stride + x * 4;
            let image = nv12_image(frame);
            let seen = image[y * w + x] as int;
            let a = frame.data[at] as int;
            let g = frame.data[at + 1] as int;
            let c = frame.data[at + 2] as int;
            &&& image.len() == w * h + w * (h / 2)
            &&& match frame.format {
                PixelFormat::Bgra8 => seen == 16 + (66 * c + 129 * g + 25 * a + 128) / 256,
                PixelFormat::Rgba8 => seen == 16 + (66 * a + 129 * g + 25 * c + 128) / 256,
                PixelFormat::Nv12 | PixelFormat::I420 => seen == frame.data[y * frame.stride + x],
                PixelFormat::P010 => true,
            }
        }),
{
    let w = frame.resolution.width as int;
    let h = frame.resolution.height as int;
    let stride = frame.stride as int;
    let ch = h / 2;
    assert(0 <= stride * ch && stride / 2 * ch <= stride * ch && 2 * (stride / 2 * ch) <= stride * ch)
        by (nonlinear_arith)
        requires
            0 <= stride,
            0 <= ch,
    ;
    law_luma_keeps_its_place(frame.data, stride, w, h, ChannelOrder::Bgra, x, y);
    law_luma_keeps_its_place(frame.data, stride, w, h, ChannelOrder::Rgba, x, y);
    law_nv12_size(frame.data, stride, w, h, ChannelOrder::Bgra);
    law_nv12_size(frame.data, stride, w, h, ChannelOrder::Rgba);
    law_padded_rows_keep_their_place(frame.data, stride, w, h, x, y);
    let lumas = rows_of(frame.data, 0, stride, w);
    let chromas = |row: int| planar_chroma_row(frame.data, stride, w, h, row, w);
    assert forall|i: int| 0 <= i < h implies (#[trigger] lumas(i)).len() == w by {
        lemma_row_fits(stride, i, h);
    }
    lemma_stacked_len(lumas, h as nat, w as nat);
    lemma_stacked_len(chromas, ch as nat, w as nat);
    assert((h as nat) * (w as nat) == w * h && (ch as nat) * (w as nat) == w * ch) by (nonlinear_arith)
        requires
            w >= 0,
            h >= 0,
            ch >= 0,
    ;
    lemma_stacked_at(lumas, h as nat, w as nat, x, y);
    lemma_row_fits(stride, y, h);
    assert(lumas(y)[x] == frame.data[y * stride + x]);
}

/// A frame is converted exactly where it has bytes, is of the size asked for, and has a
/// format of eight bits with all the bytes that its rows take.
pub proof fn law_only_whole_frames_are_converted(
    frame: CapturedView,
    width: u32,
    height: u32,
    handle_only: Seq<char>,
)
    requires
        frame.stride >= width * 4,
    ensures
        ({
            let rows = height as int;
            let stride = frame.stride as int;
            let need = match frame.format {
                PixelFormat::Bgra8 | PixelFormat::Rgba8 => stride * rows,
                PixelFormat::Nv12 => stride * rows + stride * (rows / 2),
                PixelFormat::I420 => stride * rows + 2 * (stride / 2 * (rows / 2)),
                PixelFormat::P010 => (frame.data.len() + 1) as int,
            };
            conversion_refusal(frame, width, height, handle_only) is None <==> (frame.data.len() > 0
                && frame.resolution.width == width && frame.resolution.height == height
                && frame.data.len() >= need)
        }),
        frame.data.len() == 0 && frame.gpu_handle is Some ==> conversion_refusal(
            frame,
            width,
            height,
            handle_only,
        ) == Some(handle_only),
{
}

/// The bytes that a planar image needs: its luma rows, and two planes of half the pitch
/// and half the rows. The pitch is the stride, or the width where that is larger.
pub proof fn law_planar_images_need_their_planes(stride: int, w: int, h: int)
    ensures
        stride >= w ==> larger(stride, w) == stride,
        stride <= w ==> larger(stride, w) == w,
        stride >= w ==> planar_size(stride, w, h) == stride * h + 2 * (stride / 2 * (h / 2)),
        stride <= w ==> planar_size(stride, w, h) == w * h + 2 * (w / 2 * (h / 2)),
{
}

/// Why a frame cannot be converted.
pub proof fn law_refused_frames_are_told_why(
    frame: CapturedView,
    width: u32,
    height: u32,
    handle_only: Seq<char>,
)
    ensures
        ({
            let refusal = conversion_refusal(frame, width, height, handle_only);
            let len = frame.data.len();
            let stride = frame.stride as int;
            let pitch = if stride > width {
                stride
            } else {
                width as int
            };
            let same = frame.resolution.width == width && frame.resolution.height == height;
            &&& len == 0 && frame.gpu_handle is None ==> refusal == Some(
                "frame has no CPU pixel data to upload"@,
            )
            &&& len > 0 && !same ==> refusal == Some(
                "frame resolution "@ + (decimal(frame.resolution.width as nat) + "x"@ + decimal(
                    frame.resolution.height as nat,
                )) + " does not match encoder "@ + (decimal(width as nat) + "x"@ + decimal(
                    height as nat,
                )),
            )
            &&& len > 0 && same && (frame.format == PixelFormat::Bgra8 || frame.format
                == PixelFormat::Rgba8) && (stride < width * 4 || len < stride * height) ==> refusal
                == Some(
                "RGB buffer too small: "@ + decimal(len) + " bytes, need stride "@ + decimal(
                    frame.stride as nat,
                ) + " * height "@ + decimal(height as nat),
            )
            &&& len > 0 && same && frame.format == PixelFormat::Nv12 ==> if len < pitch * height
                + pitch * (height as int / 2) {
                refusal == Some("NV12 buffer too small: "@ + decimal(len) + " bytes"@)
            } else {
                refusal is None
            }
            &&& len > 0 && same && frame.format == PixelFormat::I420 ==> if len < pitch * height + 2
                * (pitch / 2 * (height as int / 2)) {
                refusal == Some("I420 buffer too small: "@ + decimal(len) + " bytes"@)
            } else {
                refusal is None
            }
            &&& len > 0 && same && frame.format == PixelFormat::P010 ==> refusal == Some(
                "P010/10-bit input is not supported until the HDR phase"@,
            )
        }),
        forall|len: nat, rows: nat| #[trigger]
            packed_too_small(len, frame.stride as nat, rows) == "RGB buffer too small: "@ + decimal(
                len,
            ) + " bytes, need stride "@ + decimal(frame.stride as nat) + " * height "@ + decimal(
                rows,
            ),
{
}

/// A last odd column has no chroma of its own: its place holds zero.
pub proof fn law_odd_columns_have_no_chroma(
    data: Seq<u8>,
    stride: int,
    w: int,
    h: int,
    order: ChannelOrder,
    cy: int,
)
    requires
        0 < w,
        w % 2 == 1,
        0 <= cy < h / 2,
        stride >= w,
        data.len() >= stride * h,
    ensures
        nv12_of_packed(data, stride, w, h, order)[w * h + cy * w + w - 1] == 0,
        nv12_of_planar(data, stride, w, h)[w * h + cy * w + w - 1] == 0,
{
    let ch = h / 2;
    let lumas = |y: int| luma_row(data, stride, order, y, w);
    let chromas = |row: int| chroma_row(data, stride, order, w, row, w);
    let planar_lumas = rows_of(data, 0, stride, w);
    let planar_chromas = |row: int| planar_chroma_row(data, stride, w, h, row, w);
    assert forall|i: int| 0 <= i < h implies (#[trigger] planar_lumas(i)).len() == w by {
        lemma_row_fits(stride, i, h);
    }
    lemma_stacked_len(lumas, h as nat, w as nat);
    lemma_stacked_len(planar_lumas, h as nat, w as nat);
    lemma_stacked_len(chromas, ch as nat, w as nat);
    lemma_stacked_len(planar_chromas, ch as nat, w as nat);
    assert((h as nat) * (w as nat) == w * h) by (nonlinear_arith)
        requires
            w >= 0,
            h >= 0,
    ;
    lemma_stacked_at(chromas, ch as nat, w as nat, w - 1, cy);
    lemma_stacked_at(planar_chromas, ch as nat, w as nat, w - 1, cy);
}

/// The luma of a planar image keeps its place, however few columns and rows there are, and
/// a stride below the width counts as the width.
pub proof fn law_planar_luma_keeps_its_place(
    data: Seq<u8>,
    stride: int,
    w: int,
    h: int,
    x: int,
    y: int,
)
    requires
        0 <= x < w,
        0 <= y < h,
        stride >= w,
        data.len() >= stride * h,
    ensures
        nv12_of_planar(data, stride, w, h)[y * w + x] == data[y * stride + x],
        forall|less: int|
            less <= w ==> #[trigger] nv12_of_planar(data, less, w, h) == nv12_of_planar(
                data,
                w,
                w,
                h,
            ),
{
    let lumas = rows_of(data, 0, stride, w);
    assert forall|i: int| 0 <= i < h implies (#[trigger] lumas(i)).len() == w by {
        lemma_row_fits(stride, i, h);
    }
    lemma_stacked_len(lumas, h as nat, w as nat);
    lemma_stacked_at(lumas, h as nat, w as nat, x, y);
    lemma_row_fits(stride, y, h);
    assert(lumas(y)[x] == data[y * stride + x]);
    assert(y * w + x < w * h && (h as nat) * (w as nat) == w * h) by (nonlinear_arith)
        requires
            0 <= x < w,
            0 <= y < h,
    ;
}

/// The image of a frame is that of its bytes in its format, by its own stride and size.
pub proof fn law_images_are_made_of_their_bytes(frame: CapturedView)
    ensures
        ({
            let w = frame.resolution.width as int;
            let h = frame.resolution.height as int;
            let stride = frame.stride as int;
            &&& frame.format == PixelFormat::Bgra8 ==> nv12_image(frame) == nv12_of_packed(
                frame.data,
                stride,
                w,
                h,
                ChannelOrder::Bgra,
            )
            &&& frame.format == PixelFormat::Rgba8 ==> nv12_image(frame) == nv12_of_packed(
                frame.data,
                stride,
                w,
                h,
                ChannelOrder::Rgba,
            )
            &&& frame.format == PixelFormat::Nv12 ==> nv12_image(frame) == nv12_of_padded(
                frame.data,
                stride,
                w,
                h,
            )
            &&& frame.format == PixelFormat::I420 ==> nv12_image(frame) == nv12_of_planar(
                frame.data,
                stride,
                w,
                h,
            )
        }),
{
}

} // verus!
