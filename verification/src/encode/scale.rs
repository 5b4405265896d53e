//! Downscaling of frames for encoders with a maximum coded resolution.

use vstd::prelude::*;

use crate::error::{ErrorView, FluxError};
use crate::frame::{CapturedFrame, CapturedView};
use crate::text::{decimal, push_decimal};
use crate::types::{
    pixel_format_text, push_resolution, resolution_text, PixelFormat, Resolution,
};

verus! {

/// Bilinear weights are counted in 256ths.
pub const FP_ONE: u32 = 256;

/// The largest even number that is not above `n`.
pub open spec fn even_floor(n: int) -> int {
    n - n % 2
}

/// Whether one resolution fits inside another.
pub open spec fn fits(inner: Resolution, outer: Resolution) -> bool {
    inner.width <= outer.width && inner.height <= outer.height
}

/// An extent scaled by a ratio, rounded down to an even number of at least two.
pub open spec fn scaled_extent(extent: int, num: int, den: int) -> int {
    let scaled = even_floor(extent * num / den);
    if scaled < 2 {
        2
    } else {
        scaled
    }
}

/// The resolution that `src` is brought down to: rounded down to even extents
/// where it fits, else scaled by the smaller of the two ratios. One that fits and
/// is narrower than the least even size stays as it is.
pub open spec fn fitted(src: Resolution, max: Resolution) -> Resolution {
    if src.width == 0 || src.height == 0 {
        src
    } else if fits(src, max) {
        if src.width < 2 || src.height < 2 {
            src
        } else {
            Resolution {
                width: even_floor(src.width as int) as u32,
                height: even_floor(src.height as int) as u32,
            }
        }
    } else if max.width * src.height <= max.height * src.width {
        Resolution {
            width: scaled_extent(src.width as int, max.width as int, src.width as int) as u32,
            height: scaled_extent(src.height as int, max.width as int, src.width as int) as u32,
        }
    } else {
        Resolution {
            width: scaled_extent(src.width as int, max.height as int, src.height as int) as u32,
            height: scaled_extent(src.height as int, max.height as int, src.height as int) as u32,
        }
    }
}

/// The ratio `num / den` brings both extents down into `max`.
proof fn lemma_scale_fits(src: Resolution, max: Resolution)
    requires
        src.width > 0,
        src.height > 0,
        !fits(src, max),
    ensures
        max.width * src.height <= max.height * src.width ==> {
            &&& src.width * max.width / src.width as int == max.width
            &&& src.height * max.width / src.width as int <= max.height
            &&& max.width < src.width
        },
        max.width * src.height > max.height * src.width ==> {
            &&& src.height * max.height / src.height as int == max.height
            &&& src.width * max.height / src.height as int <= max.width
            &&& max.height < src.height
        },
{
    let (sw, sh, mw, mh) = (src.width as int, src.height as int, max.width as int, max.height as int);
    assert(sw * mw / sw == mw) by (nonlinear_arith)
        requires
            sw > 0,
    ;
    assert(sh * mh / sh == mh) by (nonlinear_arith)
        requires
            sh > 0,
    ;
    if mw * sh <= mh * sw {
        assert(sh * mw / sw <= mh) by (nonlinear_arith)
            requires
                sw > 0,
                mw * sh <= mh * sw,
        ;
        assert(mw < sw) by (nonlinear_arith)
            requires
                mw * sh <= mh * sw,
                sw > mw || sh > mh,
                sw > 0,
                sh > 0,
                mw >= 0,
                mh >= 0,
        ;
    } else {
        assert(sw * mh / sh <= mw) by (nonlinear_arith)
            requires
                sh > 0,
                mw * sh > mh * sw,
        ;
        assert(mh < sh) by (nonlinear_arith)
            requires
                mw * sh > mh * sw,
                sw > mw || sh > mh,
                sw > 0,
                sh > 0,
                mw >= 0,
                mh >= 0,
        ;
    }
}

/// The resolution that fits inside `max` with the aspect ratio of `src`, in even
/// extents. It is never larger than `src` but for the least even size.
pub fn fit_within(src: Resolution, max: Resolution) -> (target: Resolution)
    ensures
        target == fitted(src, max),
{
    if src.width == 0 || src.height == 0 {
        return src;
    }
    if src.width <= max.width && src.height <= max.height {
        if src.width < 2 || src.height < 2 {
            return src;
        }
        return Resolution {
            width: src.width - src.width % 2,
            height: src.height - src.height % 2,
        };
    }
    proof {
        lemma_scale_fits(src, max);
        lemma_product_bounds(max.width, src.height);
        lemma_product_bounds(max.height, src.width);
        lemma_product_bounds(src.width, max.width);
        lemma_product_bounds(src.height, max.height);
    }
    let by_width: bool = (max.width as u64) * (src.height as u64) <= (max.height as u64) * (
    src.width as u64);
    let width: u64 = if by_width {
        src.width as u64 * max.width as u64 / src.width as u64
    } else {
        src.width as u64 * max.height as u64 / src.height as u64
    };
    let height: u64 = if by_width {
        src.height as u64 * max.width as u64 / src.width as u64
    } else {
        src.height as u64 * max.height as u64 / src.height as u64
    };
    let width: u64 = width - width % 2;
    let height: u64 = height - height % 2;
    Resolution {
        width: if width < 2 {
            2
        } else {
            width as u32
        },
        height: if height < 2 {
            2
        } else {
            height as u32
        },
    }
}

proof fn lemma_product_bounds(a: u32, b: u32)
    ensures
        0 <= a * b <= u64::MAX,
{
    assert(0 <= a * b <= 0xffff_ffff * 0xffff_ffff) by (nonlinear_arith)
        requires
            0 <= a <= 0xffff_ffff,
            0 <= b <= 0xffff_ffff,
    ;
}

/// A resolution of at least the least even size is brought inside any limit of
/// at least that size, and is never enlarged by it. Both extents of the result are
/// even, and an even resolution that fits is not changed.
pub proof fn law_fit_within(src: Resolution, max: Resolution)
    requires
        src.width >= 2,
        src.height >= 2,
        max.width >= 2,
        max.height >= 2,
    ensures
        fits(fitted(src, max), max),
        fits(fitted(src, max), src),
        fitted(src, max).width % 2 == 0,
        fitted(src, max).height % 2 == 0,
        fits(src, max) && src.width % 2 == 0 && src.height % 2 == 0 ==> fitted(src, max) == src,
{
    if !fits(src, max) {
        lemma_scale_fits(src, max);
        let (sw, sh, mw, mh) = (
            src.width as int,
            src.height as int,
            max.width as int,
            max.height as int,
        );
        if mw * sh <= mh * sw {
            assert(sh * mw / sw <= sh) by (nonlinear_arith)
                requires
                    sw > 0,
                    sh > 0,
                    mw < sw,
            ;
        } else {
            assert(sw * mh / sh <= sw) by (nonlinear_arith)
                requires
                    sw > 0,
                    sh > 0,
                    mh < sh,
            ;
        }
    }
}

/// The step between samples along an axis, in 256ths of a source pixel.
pub open spec fn sample_step(source: int, target: int) -> int {
    (source - 1) * 256 / target % 0x1_0000_0000
}

/// The source pixel that a sample starts from; its neighbour is blended in, so
/// the last pixel never starts one.
pub open spec fn sample_index(source: int, target: int, position: int) -> int {
    let whole = position * sample_step(source, target) / 256;
    if whole <= source - 2 {
        whole
    } else {
        source - 2
    }
}

/// The weight of the neighbour, in 256ths.
pub open spec fn sample_weight(source: int, target: int, position: int) -> int {
    position * sample_step(source, target) % 256
}

/// Two values blended by a weight, 256 times too large.
pub open spec fn blend(a: int, b: int, weight: int) -> int {
    a * (256 - weight) + b * weight
}

/// A byte of a packed 32-bit frame.
pub open spec fn pixel_byte(frame: CapturedView, x: int, y: int, channel: int) -> int {
    frame.data[y * frame.stride + x * 4 + channel] as int
}

/// A byte of the downscaled frame: the four source pixels around its sample,
/// blended along the row and then between the rows.
pub open spec fn scaled_byte(
    frame: CapturedView,
    target: Resolution,
    x: int,
    y: int,
    channel: int,
) -> u8 {
    let sx = sample_index(frame.resolution.width as int, target.width as int, x);
    let sy = sample_index(frame.resolution.height as int, target.height as int, y);
    let wx = sample_weight(frame.resolution.width as int, target.width as int, x);
    let wy = sample_weight(frame.resolution.height as int, target.height as int, y);
    let top = blend(pixel_byte(frame, sx, sy, channel), pixel_byte(frame, sx + 1, sy, channel), wx);
    let bottom = blend(
        pixel_byte(frame, sx, sy + 1, channel),
        pixel_byte(frame, sx + 1, sy + 1, channel),
        wx,
    );
    (blend(top, bottom, wy) / 0x1_0000) as u8
}

/// The first `count` bytes of a downscaled row.
pub open spec fn scaled_row(frame: CapturedView, target: Resolution, y: int, count: int) -> Seq<u8> {
    Seq::new(count as nat, |k: int| scaled_byte(frame, target, k / 4, y, k % 4))
}

/// The first `count` downscaled rows, one after the other.
pub open spec fn scaled_rows(frame: CapturedView, target: Resolution, count: nat) -> Seq<u8>
    decreases count,
{
    if count == 0 {
        Seq::empty()
    } else {
        scaled_rows(frame, target, (count - 1) as nat) + scaled_row(
            frame,
            target,
            count - 1,
            target.width * 4,
        )
    }
}

/// Whether the pixel data covers every row, and every row holds its pixels.
pub open spec fn covers(frame: CapturedView) -> bool {
    frame.data.len() >= frame.stride * frame.resolution.height && frame.stride
        >= frame.resolution.width * 4
}

/// Why a frame cannot be downscaled, if it cannot.
pub open spec fn downscale_refusal(frame: CapturedView, target: Resolution) -> Option<Seq<char>> {
    if frame.format != PixelFormat::Bgra8 && frame.format != PixelFormat::Rgba8 {
        Some("unsupported pixel format "@ + pixel_format_text(frame.format) + " (expected BGRA/RGBA)"@)
    } else if frame.data.len() == 0 {
        Some("frame has no CPU pixel data (GPU-only frames unsupported)"@)
    } else if target.width == 0 || target.height == 0 || !fits(target, frame.resolution) {
        Some("invalid target "@ + resolution_text(target) + " for source "@ + resolution_text(frame.resolution))
    } else if !covers(frame) {
        Some(
            "source buffer too small ("@ + decimal(frame.data.len()) + " bytes for "@ + resolution_text(
                frame.resolution,
            ) + " stride "@ + decimal(frame.stride as nat) + ")"@,
        )
    } else {
        None
    }
}

/// A frame brought down to a resolution, or why it cannot be.
pub open spec fn downscaled(frame: CapturedView, target: Resolution) -> Result<
    CapturedView,
    ErrorView,
> {
    if frame.resolution == target {
        Ok(frame)
    } else {
        match downscale_refusal(frame, target) {
            Some(reason) => Err(
                ErrorView::Encode { frame: frame.sequence, reason: "downscale: "@ + reason },
            ),
            None => Ok(
                CapturedView {
                    sequence: frame.sequence,
                    timestamp: frame.timestamp,
                    format: frame.format,
                    resolution: target,
                    stride: (target.width * 4) as u32,
                    data: scaled_rows(frame, target, target.height as nat),
                    gpu_handle: None,
                },
            ),
        }
    }
}

/// The error for a frame that cannot be downscaled.
fn refusal(frame: &CapturedFrame, reason: String) -> (error: FluxError)
    ensures
        error@ == (ErrorView::Encode { frame: frame.sequence, reason: "downscale: "@ + reason@ }),
{
    let mut text = "downscale: ".to_string();
    text.append(reason.as_str());
    FluxError::Encode { frame: frame.sequence, reason: text }
}

fn sample(source: u32, target: u32, position: u32) -> (found: (usize, u32))
    requires
        source >= 2,
        0 <= position < target,
        source <= usize::MAX,
    ensures
        found.0 == sample_index(source as int, target as int, position as int),
        found.1 == sample_weight(source as int, target as int, position as int),
        found.0 <= source - 2,
        found.1 < 256,
{
    let ratio: u64 = (source - 1) as u64 * 256 / target as u64;
    let step: u64 = ratio % 0x1_0000_0000;
    assert(0 <= position * step <= 0xffff_ffff * 0xffff_ffff) by (nonlinear_arith)
        requires
            0 <= position <= 0xffff_ffff,
            0 <= step <= 0xffff_ffff,
    ;
    let fixed: u64 = position as u64 * step;
    let whole: u64 = fixed / 256;
    let last: u64 = (source - 2) as u64;
    let index: u64 = if whole < last {
        whole
    } else {
        last
    };
    (index as usize, (fixed % 256) as u32)
}

fn blended(a: u32, b: u32, weight: u32, limit: Ghost<int>) -> (value: u32)
    requires
        a <= limit@,
        b <= limit@,
        weight <= 256,
        0 <= limit@ <= 0xffff,
    ensures
        value == blend(a as int, b as int, weight as int),
        value <= limit@ * 256,
{
    let ghost bound = limit@;
    assert(0 <= a * (256 - weight) && 0 <= b * weight && a * (256 - weight) + b * weight <= bound
        * 256) by (nonlinear_arith)
        requires
            0 <= a <= bound,
            0 <= b <= bound,
            0 <= weight <= 256,
    ;
    assert(bound * 256 <= 0xff_ff00);
    a * (FP_ONE - weight) + b * weight
}

/// Appends one downscaled row.
fn push_scaled_row(frame: &CapturedFrame, target: Resolution, y: u32, out: &mut Vec<u8>)
    requires
        covers(frame@),
        fits(target, frame.resolution),
        frame.resolution.width >= 2,
        frame.resolution.height >= 2,
        0 <= y < target.height,
        frame.resolution.width <= usize::MAX,
        frame.resolution.height <= usize::MAX,
    ensures
        final(out)@ == old(out)@ + scaled_row(frame@, target, y as int, target.width * 4),
{
    let stride: usize = frame.stride as usize;
    let (sy, wy) = sample(frame.resolution.height, target.height, y);
    proof {
        lemma_row_inside(frame@, sy as int);
    }
    let len: usize = frame.data.len();
    assert((sy + 1) * stride + stride <= len);
    let row0: usize = sy * stride;
    let row1: usize = row0 + stride;
    let ghost before = out@;
    for x in 0..target.width
        invariant
            covers(frame@),
            fits(target, frame.resolution),
            frame.resolution.width >= 2,
            frame.resolution.width <= usize::MAX,
            stride == frame.stride,
            sy == sample_index(frame.resolution.height as int, target.height as int, y as int),
            wy == sample_weight(frame.resolution.height as int, target.height as int, y as int),
            wy < 256,
            row0 == sy * stride,
            row1 == (sy + 1) * stride,
            row1 == row0 + stride,
            row1 + stride <= frame.data@.len(),
            frame.data@.len() == len,
            out@ == before + scaled_row(frame@, target, y as int, x * 4),
    {
        let (sx, wx) = sample(frame.resolution.width, target.width, x);
        let offset: usize = sx * 4;
        for channel in 0..4usize
            invariant
                frame.resolution.width >= 2,
                stride == frame.stride,
                stride >= frame.resolution.width * 4,
                sx == sample_index(frame.resolution.width as int, target.width as int, x as int),
                wx == sample_weight(frame.resolution.width as int, target.width as int, x as int),
                sx <= frame.resolution.width - 2,
                wx < 256,
                sy == sample_index(frame.resolution.height as int, target.height as int, y as int),
                wy == sample_weight(frame.resolution.height as int, target.height as int, y as int),
                wy < 256,
                offset == sx * 4,
                row0 == sy * stride,
                row1 == (sy + 1) * stride,
                row1 == row0 + stride,
                row1 + stride <= frame.data@.len(),
                frame.data@.len() == len,
                out@ == before + scaled_row(frame@, target, y as int, x * 4 + channel),
        {
            let p00: u32 = frame.data[row0 + offset + channel] as u32;
            let p01: u32 = frame.data[row0 + offset + 4 + channel] as u32;
            let p10: u32 = frame.data[row1 + offset + channel] as u32;
            let p11: u32 = frame.data[row1 + offset + 4 + channel] as u32;
            let top: u32 = blended(p00, p01, wx, Ghost(255));
            let bottom: u32 = blended(p10, p11, wx, Ghost(255));
            let value: u32 = blended(top, bottom, wy, Ghost(0xff00)) / 0x1_0000;
            assert(value == scaled_byte(frame@, target, x as int, y as int, channel as int));
            out.push(value as u8);
            assert(out@ =~= before + scaled_row(frame@, target, y as int, x * 4 + channel + 1));
        }
    }
    assert(out@ =~= before + scaled_row(frame@, target, y as int, target.width * 4));
}

proof fn lemma_row_inside(frame: CapturedView, sy: int)
    requires
        covers(frame),
        0 <= sy <= frame.resolution.height - 2,
    ensures
        0 <= sy * frame.stride,
        (sy + 1) * frame.stride == sy * frame.stride + frame.stride,
        (sy + 1) * frame.stride + frame.stride <= frame.data.len(),
{
    let stride = frame.stride as int;
    let height = frame.resolution.height as int;
    assert((sy + 1) * stride == sy * stride + stride) by (nonlinear_arith);
    assert((sy + 2) * stride == sy * stride + stride + stride) by (nonlinear_arith);
    assert(0 <= sy * stride && (sy + 2) * stride <= height * stride) by (nonlinear_arith)
        requires
            0 <= sy <= height - 2,
            0 <= stride,
    ;
    assert(height * stride == stride * height) by (nonlinear_arith);
}

/// A packed 32-bit frame brought down to `target` by bilinear filtering. A frame
/// of that resolution comes back as it is.
pub fn downscale_frame(frame: &CapturedFrame, target: Resolution) -> (result: Result<
    CapturedFrame,
    FluxError,
>)
    requires
        downscale_refusal(frame@, target) is None && frame.resolution != target ==> {
            &&& frame.resolution.width >= 2
            &&& frame.resolution.height >= 2
        },
    ensures
        match downscaled(frame@, target) {
            Ok(expected) => result matches Ok(scaled) && scaled@ == expected,
            Err(error) => result matches Err(e) && e@ == error,
        },
{
    if frame.resolution == target {
        return Ok(frame.duplicate());
    }
    if frame.format != PixelFormat::Bgra8 && frame.format != PixelFormat::Rgba8 {
        let mut text = "unsupported pixel format ".to_string();
        text.append(frame.format.name());
        text.append(" (expected BGRA/RGBA)");
        return Err(refusal(frame, text));
    }
    if frame.data.len() == 0 {
        return Err(
            refusal(
                frame,
                "frame has no CPU pixel data (GPU-only frames unsupported)".to_string(),
            ),
        );
    }
    if target.width == 0 || target.height == 0 || target.width > frame.resolution.width
        || target.height > frame.resolution.height {
        let mut text = "invalid target ".to_string();
        push_resolution(&mut text, target);
        text.append(" for source ");
        push_resolution(&mut text, frame.resolution);
        return Err(refusal(frame, text));
    }
    proof {
        lemma_product_bounds(frame.stride, frame.resolution.height);
    }
    if (frame.data.len() as u64) < frame.stride as u64 * frame.resolution.height as u64
        || (frame.stride as u64) < frame.resolution.width as u64 * 4 {
        let mut text = "source buffer too small (".to_string();
        push_decimal(&mut text, frame.data.len() as u64);
        text.append(" bytes for ");
        push_resolution(&mut text, frame.resolution);
        text.append(" stride ");
        push_decimal(&mut text, frame.stride as u64);
        text.append(")");
        return Err(refusal(frame, text));
    }
    let mut data: Vec<u8> = Vec::new();
    for y in 0..target.height
        invariant
            covers(frame@),
            fits(target, frame.resolution),
            frame.resolution.width >= 2,
            frame.resolution.height >= 2,
            data@ == scaled_rows(frame@, target, y as nat),
    {
        push_scaled_row(frame, target, y, &mut data);
    }
    Ok(
        CapturedFrame {
            sequence: frame.sequence,
            timestamp: frame.timestamp,
            format: frame.format,
            resolution: target,
            stride: target.width * 4,
            data,
            gpu_handle: None,
        },
    )
}

/// A frame of one colour stays that colour: where a channel has one value over
/// the whole source, it has it in every downscaled pixel.
pub proof fn law_solid_colour_survives(
    frame: CapturedView,
    target: Resolution,
    channel: int,
    value: u8,
    x: int,
    y: int,
)
    requires
        0 <= channel < 4,
        frame.resolution.width >= 2,
        frame.resolution.height >= 2,
        0 <= x < target.width,
        0 <= y < target.height,
        forall|px: int, py: int|
            0 <= px < frame.resolution.width && 0 <= py < frame.resolution.height
                ==> #[trigger] pixel_byte(frame, px, py, channel) == value,
    ensures
        scaled_byte(frame, target, x, y, channel) == value,
{
    let sx = sample_index(frame.resolution.width as int, target.width as int, x);
    let sy = sample_index(frame.resolution.height as int, target.height as int, y);
    let wx = sample_weight(frame.resolution.width as int, target.width as int, x);
    let wy = sample_weight(frame.resolution.height as int, target.height as int, y);
    lemma_sample_range(frame.resolution.width as int, target.width as int, x);
    lemma_sample_range(frame.resolution.height as int, target.height as int, y);
    assert(pixel_byte(frame, sx, sy, channel) == value);
    assert(pixel_byte(frame, sx + 1, sy, channel) == value);
    assert(pixel_byte(frame, sx, sy + 1, channel) == value);
    assert(pixel_byte(frame, sx + 1, sy + 1, channel) == value);
    let v = value as int;
    assert(v * (256 - wx) + v * wx == v * 256) by (nonlinear_arith);
    assert((v * 256) * (256 - wy) + (v * 256) * wy == v * 0x1_0000) by (nonlinear_arith);
}

proof fn lemma_sample_range(source: int, target: int, position: int)
    requires
        source >= 2,
        0 <= position,
        target > 0,
    ensures
        0 <= sample_index(source, target, position) <= source - 2,
        0 <= sample_weight(source, target, position) < 256,
{
    let step = sample_step(source, target);
    assert(0 <= position * step) by (nonlinear_arith)
        requires
            0 <= position,
            0 <= step,
    ;
}

proof fn lemma_scaled_rows(
    frame: CapturedView,
    target: Resolution,
    count: nat,
    x: int,
    y: int,
    channel: int,
)
    requires
        0 <= channel < 4,
        0 <= x < target.width,
        0 <= y < count,
    ensures
        scaled_rows(frame, target, count).len() == count * (target.width * 4),
        0 <= (y * target.width + x) * 4 + channel < count * (target.width * 4),
        scaled_rows(frame, target, count)[(y * target.width + x) * 4 + channel] == scaled_byte(
            frame,
            target,
            x,
            y,
            channel,
        ),
    decreases count,
{
    let w = target.width as int;
    let front = (count - 1) as nat;
    assert(front * (w * 4) + w * 4 == count * (w * 4) && (y * w + x) * 4 == y * (w * 4) + x * 4 && (y
        < front ==> y * (w * 4) + w * 4 <= front * (w * 4)) && 0 <= y * (w * 4)) by (nonlinear_arith)
        requires
            front == count - 1,
            0 <= y < count,
            w >= 0,
    ;
    if y < front {
        lemma_scaled_rows(frame, target, front, x, y, channel);
    } else {
        lemma_scaled_rows_len(frame, target, front);
        assert((x * 4 + channel) / 4 == x && (x * 4 + channel) % 4 == channel);
    }
}

proof fn lemma_scaled_rows_len(frame: CapturedView, target: Resolution, count: nat)
    ensures
        scaled_rows(frame, target, count).len() == count * (target.width * 4),
    decreases count,
{
    let w = target.width as int;
    if count > 0 {
        lemma_scaled_rows_len(frame, target, (count - 1) as nat);
        assert((count - 1) * (w * 4) + w * 4 == count * (w * 4)) by (nonlinear_arith);
    } else {
        assert(0 * (w * 4) == 0);
    }
}

/// A weighted mean of two numbers lies between them.
proof fn lemma_blend_between(a: int, b: int, weight: int, low: int, high: int)
    requires
        low <= a <= high,
        low <= b <= high,
        0 <= weight <= 256,
    ensures
        low * 256 <= blend(a, b, weight) <= high * 256,
{
    assert(low * 256 <= a * (256 - weight) + b * weight <= high * 256) by (nonlinear_arith)
        requires
            low <= a <= high,
            low <= b <= high,
            0 <= weight <= 256,
    ;
}

/// Every byte of a frame that was brought down lies at its own row, column and channel,
/// and between the least and the greatest of that channel in four source pixels: those
/// around the place that has the same share of the source to its left and above it,
/// counted in steps of a 256th of a source pixel.
pub proof fn law_downscaling_keeps_places(
    frame: CapturedView,
    target: Resolution,
    x: int,
    y: int,
    channel: int,
    low: int,
    high: int,
)
    requires
        downscale_refusal(frame, target) is None,
        frame.resolution != target,
        2 <= frame.resolution.width <= 0x100_0000,
        2 <= frame.resolution.height <= 0x100_0000,
        0 <= x < target.width,
        0 <= y < target.height,
        0 <= channel < 4,
        ({
            let left = x * ((frame.resolution.width - 1) * 256 / target.width as int) / 256;
            let top = y * ((frame.resolution.height - 1) * 256 / target.height as int) / 256;
            forall|px: int, py: int|
                left <= px <= left + 1 && top <= py <= top + 1 ==> low <= #[trigger] frame.data[py
                    * frame.stride + px * 4 + channel] <= high
        }),
    ensures
        ({
            let left = x * ((frame.resolution.width - 1) * 256 / target.width as int) / 256;
            let top = y * ((frame.resolution.height - 1) * 256 / target.height as int) / 256;
            let small = downscaled(frame, target)->Ok_0;
            &&& 0 <= left < frame.resolution.width - 1
            &&& 0 <= top < frame.resolution.height - 1
            &&& 0 <= (y * target.width + x) * 4 + channel < small.data.len()
            &&& low <= small.data[(y * target.width + x) * 4 + channel] <= high
        }),
{
    let (sw, sh) = (frame.resolution.width as int, frame.resolution.height as int);
    let (dw, dh) = (target.width as int, target.height as int);
    lemma_scaled_rows(frame, target, target.height as nat, x, y, channel);
    lemma_place(sw, dw, x);
    lemma_place(sh, dh, y);
    let (sx, sy) = (sample_index(sw, dw, x), sample_index(sh, dh, y));
    let (wx, wy) = (sample_weight(sw, dw, x), sample_weight(sh, dh, y));
    let p00 = pixel_byte(frame, sx, sy, channel);
    let p01 = pixel_byte(frame, sx + 1, sy, channel);
    let p10 = pixel_byte(frame, sx, sy + 1, channel);
    let p11 = pixel_byte(frame, sx + 1, sy + 1, channel);
    assert(low <= frame.data[sy * frame.stride + sx * 4 + channel] <= high);
    assert(low <= frame.data[sy * frame.stride + (sx + 1) * 4 + channel] <= high);
    assert(low <= frame.data[(sy + 1) * frame.stride + sx * 4 + channel] <= high);
    assert(low <= frame.data[(sy + 1) * frame.stride + (sx + 1) * 4 + channel] <= high);
    lemma_blend_between(p00, p01, wx, low, high);
    lemma_blend_between(p10, p11, wx, low, high);
    lemma_blend_between(p00, p01, wx, 0, 255);
    lemma_blend_between(p10, p11, wx, 0, 255);
    let (above, below) = (blend(p00, p01, wx), blend(p10, p11, wx));
    lemma_blend_between(above, below, wy, low * 256, high * 256);
    lemma_blend_between(above, below, wy, 0, 0xff00);
}

/// Where a sample starts: within the source, at the same share of it.
proof fn lemma_place(source: int, target: int, position: int)
    requires
        2 <= source <= 0x100_0000,
        0 <= position < target <= source,
    ensures
        sample_step(source, target) == (source - 1) * 256 / target,
        sample_index(source, target, position) == position * ((source - 1) * 256 / target) / 256,
        0 <= sample_index(source, target, position) < source - 1,
        0 <= sample_weight(source, target, position) < 256,
{
    let whole = (source - 1) * 256;
    let step = whole / target;
    assert(0 <= step <= whole) by (nonlinear_arith)
        requires
            whole >= 0,
            target >= 1,
            step == whole / target,
    ;
    assert(0 <= position * step && position * step < whole) by (nonlinear_arith)
        requires
            0 <= position < target,
            step == whole / target,
            whole > 0,
            target > 0,
    ;
}

/// A byte of a frame that was brought down is the mean of four source bytes, weighted by
/// how near each of them is to its place, and rounded down.
pub proof fn law_downscaling_weighs_by_nearness(
    frame: CapturedView,
    target: Resolution,
    x: int,
    y: int,
    channel: int,
)
    requires
        downscale_refusal(frame, target) is None,
        frame.resolution != target,
        2 <= frame.resolution.width <= 0x100_0000,
        2 <= frame.resolution.height <= 0x100_0000,
        0 <= x < target.width,
        0 <= y < target.height,
        0 <= channel < 4,
    ensures
        ({
            let across = x * ((frame.resolution.width - 1) * 256 / target.width as int);
            let down = y * ((frame.resolution.height - 1) * 256 / target.height as int);
            let at = |px: int, py: int|
                frame.data[(down / 256 + py) * frame.stride + (across / 256 + px) * 4 + channel] as int;
            let (right, lower) = (across % 256, down % 256);
            let sum = at(0, 0) * (256 - right) * (256 - lower) + at(1, 0) * right * (256 - lower) + at(
                0,
                1,
            ) * (256 - right) * lower + at(1, 1) * right * lower;
            let value = downscaled(frame, target)->Ok_0.data[(y * target.width + x) * 4 + channel]
                as int;
            value * 0x1_0000 <= sum < (value + 1) * 0x1_0000
        }),
{
    let (sw, sh) = (frame.resolution.width as int, frame.resolution.height as int);
    let (dw, dh) = (target.width as int, target.height as int);
    lemma_scaled_rows(frame, target, target.height as nat, x, y, channel);
    lemma_place(sw, dw, x);
    lemma_place(sh, dh, y);
    let (sx, sy) = (sample_index(sw, dw, x), sample_index(sh, dh, y));
    let (wx, wy) = (sample_weight(sw, dw, x), sample_weight(sh, dh, y));
    let a = pixel_byte(frame, sx, sy, channel);
    let b = pixel_byte(frame, sx + 1, sy, channel);
    let c = pixel_byte(frame, sx, sy + 1, channel);
    let d = pixel_byte(frame, sx + 1, sy + 1, channel);
    lemma_blend_between(a, b, wx, 0, 255);
    lemma_blend_between(c, d, wx, 0, 255);
    lemma_blend_between(blend(a, b, wx), blend(c, d, wx), wy, 0, 0xff00);
    assert(blend(blend(a, b, wx), blend(c, d, wx), wy) == a * (256 - wx) * (256 - wy) + b * wx * (256
        - wy) + c * (256 - wx) * wy + d * wx * wy) by {
        let (t, u) = (a * (256 - wx) + b * wx, c * (256 - wx) + d * wx);
        assert(t * (256 - wy) + u * wy == a * (256 - wx) * (256 - wy) + b * wx * (256 - wy) + c * (256
            - wx) * wy + d * wx * wy) by (nonlinear_arith)
            requires
                t == a * (256 - wx) + b * wx,
                u == c * (256 - wx) + d * wx,
        ;
    }
}

/// What a frame is after it was brought down: of the size asked for, with rows that
/// follow each other closely, and of the same time, number and format. A frame that has
/// the size is not touched. Nothing is enlarged, and only packed frames with all their
/// bytes are brought down.
pub proof fn law_downscaled_frames(frame: CapturedView, target: Resolution)
    requires
        frame.stride >= frame.resolution.width * 4,
    ensures
        frame.resolution == target ==> downscaled(frame, target) == Ok::<_, ErrorView>(frame),
        frame.resolution != target ==> (downscaled(frame, target) is Ok <==> {
            &&& frame.format == PixelFormat::Bgra8 || frame.format == PixelFormat::Rgba8
            &&& frame.data.len() > 0
            &&& frame.data.len() >= frame.stride * frame.resolution.height
            &&& 0 < target.width <= frame.resolution.width
            &&& 0 < target.height <= frame.resolution.height
        }),
        downscaled(frame, target) matches Ok(small) ==> {
            &&& small.resolution == target
            &&& small.format == frame.format
            &&& small.sequence == frame.sequence
            &&& small.timestamp == frame.timestamp
            &&& frame.resolution != target ==> {
                &&& small.gpu_handle is None
                &&& small.stride == target.width * 4
                &&& small.data.len() == target.height * (target.width * 4)
            }
        },
{
    lemma_scaled_rows_len(frame, target, target.height as nat);
}

/// A fitted resolution has the shape of its source, as nearly as even extents allow: an
/// extent of the result is less than two away from its share, and one of them reaches
/// the limit as nearly.
pub proof fn law_fitting_keeps_the_shape(src: Resolution, max: Resolution)
    requires
        src.width >= 2,
        src.height >= 2,
        max.width >= 2,
        max.height >= 2,
        src.width > max.width || src.height > max.height,
    ensures
        ({
            let small = fitted(src, max);
            let wide = max.width * src.height <= max.height * src.width;
            &&& wide ==> small.width == max.width - max.width % 2
            &&& wide && small.height > 2 ==> small.height * src.width <= src.height * max.width < (
            small.height + 2) * src.width
            &&& !wide ==> small.height == max.height - max.height % 2
            &&& !wide && small.width > 2 ==> small.width * src.height <= src.width * max.height < (
            small.width + 2) * src.height
        }),
{
    lemma_scale_fits(src, max);
    let (sw, sh, mw, mh) = (
        src.width as int,
        src.height as int,
        max.width as int,
        max.height as int,
    );
    if mw * sh <= mh * sw {
        let share = sh * mw / sw;
        let small = fitted(src, max).height as int;
        assert(share * sw <= sh * mw < (share + 1) * sw) by (nonlinear_arith)
            requires
                sw > 0,
                share == sh * mw / sw,
        ;
        assert(small > 2 ==> share - 1 <= small <= share);
        if small > 2 {
            assert(small * sw <= share * sw && (share + 1) * sw <= (small + 2) * sw) by (nonlinear_arith)
                requires
                    share - 1 <= small <= share,
                    sw > 0,
            ;
        }
    } else {
        let share = sw * mh / sh;
        let small = fitted(src, max).width as int;
        assert(share * sh <= sw * mh < (share + 1) * sh) by (nonlinear_arith)
            requires
                sh > 0,
                share == sw * mh / sh,
        ;
        if small > 2 {
            assert(small * sh <= share * sh && (share + 1) * sh <= (small + 2) * sh) by (nonlinear_arith)
                requires
                    share - 1 <= small <= share,
                    sh > 0,
            ;
        }
    }
}

/// What fits is brought down to even extents and no further; what has no even size stays as
/// it is, and so does what has no pixels. What does not fit keeps at least two pixels each
/// way.
pub proof fn law_fitting_resolutions_become_even(src: Resolution, max: Resolution)
    ensures
        fits(src, max) <==> src.width <= max.width && src.height <= max.height,
        fits(src, max) && src.width >= 2 && src.height >= 2 ==> fitted(src, max).width == src.width
            - src.width % 2 && fitted(src, max).height == src.height - src.height % 2,
        fits(src, max) && (src.width < 2 || src.height < 2) ==> fitted(src, max) == src,
        src.width == 0 || src.height == 0 ==> fitted(src, max) == src,
        !fits(src, max) && src.width > 0 && src.height > 0 ==> fitted(src, max).width >= 2
            && fitted(src, max).height >= 2,
{
    if !fits(src, max) && src.width > 0 && src.height > 0 {
        lemma_scale_fits(src, max);
    }
}

/// Why a frame cannot be brought down.
pub proof fn law_refused_frames_are_told(frame: CapturedView, target: Resolution)
    requires
        frame.resolution != target,
    ensures
        ({
            let result = downscaled(frame, target);
            let told = |reason: Seq<char>|
                Err::<CapturedView, ErrorView>(
                    ErrorView::Encode { frame: frame.sequence, reason: "downscale: "@ + reason },
                );
            let packed = frame.format == PixelFormat::Bgra8 || frame.format == PixelFormat::Rgba8;
            let smaller = 0 < target.width <= frame.resolution.width && 0 < target.height
                <= frame.resolution.height;
            let whole = frame.stride >= frame.resolution.width * 4 && frame.data.len()
                >= frame.stride * frame.resolution.height;
            let size = |resolution: Resolution|
                decimal(resolution.width as nat) + "x"@ + decimal(resolution.height as nat);
            &&& frame.format == PixelFormat::Nv12 ==> result == told(
                "unsupported pixel format "@ + "Nv12"@ + " (expected BGRA/RGBA)"@,
            )
            &&& frame.format == PixelFormat::P010 ==> result == told(
                "unsupported pixel format "@ + "P010"@ + " (expected BGRA/RGBA)"@,
            )
            &&& frame.format == PixelFormat::I420 ==> result == told(
                "unsupported pixel format "@ + "I420"@ + " (expected BGRA/RGBA)"@,
            )
            &&& packed && frame.data.len() == 0 ==> result == told(
                "frame has no CPU pixel data (GPU-only frames unsupported)"@,
            )
            &&& packed && frame.data.len() > 0 && !smaller ==> result == told(
                "invalid target "@ + size(target) + " for source "@ + size(frame.resolution),
            )
            &&& packed && frame.data.len() > 0 && smaller && !whole ==> result == told(
                "source buffer too small ("@ + decimal(frame.data.len()) + " bytes for "@ + size(
                    frame.resolution,
                ) + " stride "@ + decimal(frame.stride as nat) + ")"@,
            )
            &&& packed && frame.data.len() > 0 && smaller && whole ==> result is Ok
        }),
{
}

proof fn lemma_scaled_extent(extent: int, num: int, den: int)
    requires
        0 <= extent,
        0 <= num,
        0 < den,
    ensures
        extent * num < (scaled_extent(extent, num, den) + 2) * den,
        scaled_extent(extent, num, den) == 2 || scaled_extent(extent, num, den) * den <= extent
            * num,
        scaled_extent(extent, num, den) >= 2,
        scaled_extent(extent, num, den) % 2 == 0,
{
    let product = extent * num;
    let share = product / den;
    let scaled = scaled_extent(extent, num, den);
    assert(0 <= product) by (nonlinear_arith)
        requires
            0 <= extent,
            0 <= num,
            product == extent * num,
    ;
    assert(share * den <= product < (share + 1) * den) by (nonlinear_arith)
        requires
            0 < den,
            0 <= product,
            share == product / den,
    ;
    assert(share + 1 <= scaled + 2);
    assert((share + 1) * den <= (scaled + 2) * den) by (nonlinear_arith)
        requires
            share + 1 <= scaled + 2,
            0 < den,
    ;
    if scaled > 2 {
        assert(scaled * den <= share * den) by (nonlinear_arith)
            requires
                scaled <= share,
                0 < den,
        ;
    }
}

/// What does not fit is brought down by the ratio of the extent that exceeds its limit the
/// most, no further than to the next even number, and never below two.
pub proof fn law_fitting_is_tight(src: Resolution, max: Resolution)
    requires
        src.width > 0,
        src.height > 0,
        src.width > max.width || src.height > max.height,
    ensures
        ({
            let small = fitted(src, max);
            let wide = max.width * src.height <= max.height * src.width;
            let (num, den) = if wide {
                (max.width as int, src.width as int)
            } else {
                (max.height as int, src.height as int)
            };
            &&& src.width * num < (small.width + 2) * den
            &&& src.height * num < (small.height + 2) * den
            &&& small.width == 2 || small.width * den <= src.width * num
            &&& small.height == 2 || small.height * den <= src.height * num
            &&& small.width % 2 == 0 && small.height % 2 == 0
        }),
{
    lemma_scale_fits(src, max);
    let wide = max.width * src.height <= max.height * src.width;
    let (num, den) = if wide {
        (max.width as int, src.width as int)
    } else {
        (max.height as int, src.height as int)
    };
    lemma_scaled_extent(src.width as int, num, den);
    lemma_scaled_extent(src.height as int, num, den);
}

/// Frames are brought down that are packed, have all their bytes, and are no smaller than
/// what is asked for.
pub proof fn law_whole_packed_frames_are_brought_down(frame: CapturedView, target: Resolution)
    ensures
        downscale_refusal(frame, target) is None <==> {
            &&& frame.format == PixelFormat::Bgra8 || frame.format == PixelFormat::Rgba8
            &&& frame.data.len() > 0
            &&& 0 < target.width <= frame.resolution.width
            &&& 0 < target.height <= frame.resolution.height
            &&& frame.stride >= frame.resolution.width * 4
            &&& frame.data.len() >= frame.stride * frame.resolution.height
        },
{
}

} // verus!
