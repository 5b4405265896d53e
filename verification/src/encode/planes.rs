//! Rows of pixels laid out in a buffer at a pitch.

use vstd::prelude::*;

verus! {

/// A buffer after some bytes were written over it from a position on.
pub open spec fn overwritten(dest: Seq<u8>, at: int, bytes: Seq<u8>) -> Seq<u8> {
    Seq::new(
        dest.len(),
        |i: int|
            if at <= i < at + bytes.len() {
                bytes[i - at]
            } else {
                dest[i]
            },
    )
}

/// A buffer after `count` rows of `w` bytes were written into it, the rows
/// `src_stride` bytes apart in the source and `pitch` bytes apart in the buffer.
pub open spec fn with_rows(
    dest: Seq<u8>,
    offset: int,
    pitch: int,
    src: Seq<u8>,
    src_offset: int,
    src_stride: int,
    w: int,
    count: nat,
) -> Seq<u8>
    decreases count,
{
    if count == 0 {
        dest
    } else {
        let row = count - 1;
        overwritten(
            with_rows(dest, offset, pitch, src, src_offset, src_stride, w, (count - 1) as nat),
            offset + row * pitch,
            src.subrange(src_offset + row * src_stride, src_offset + row * src_stride + w),
        )
    }
}

/// Writes rows into a buffer, one after the other.
pub fn write_rows(
    dest: &mut [u8],
    offset: usize,
    pitch: usize,
    src: &[u8],
    src_offset: usize,
    src_stride: usize,
    w: usize,
    count: usize,
)
    requires
        w <= src_stride,
        src_offset + src_stride * count <= src@.len(),
        count > 0 ==> offset + pitch * (count - 1) + w <= old(dest)@.len(),
    ensures
        final(dest)@ == with_rows(
            old(dest)@,
            offset as int,
            pitch as int,
            src@,
            src_offset as int,
            src_stride as int,
            w as int,
            count as nat,
        ),
{
    let ghost before = dest@;
    let dest_len: usize = dest.len();
    let src_len: usize = src.len();
    for row in 0..count
        invariant
            w <= src_stride,
            src_len == src@.len(),
            dest_len == dest@.len(),
            src_offset + src_stride * count <= src_len,
            count > 0 ==> offset + pitch * (count - 1) + w <= dest_len,
            dest@ == with_rows(
                before,
                offset as int,
                pitch as int,
                src@,
                src_offset as int,
                src_stride as int,
                w as int,
                row as nat,
            ),
    {
        proof {
            lemma_row_inside(pitch as int, row as int, count as int);
            lemma_row_inside(src_stride as int, row as int, count as int);
        }
        let to: usize = offset + row * pitch;
        let from: usize = src_offset + row * src_stride;
        let ghost above = dest@;
        let ghost bytes = src@.subrange(from as int, from + w);
        for i in 0..w
            invariant
                from + w <= src_len,
                to + w <= dest_len,
                src_len == src@.len(),
                dest_len == dest@.len(),
                above.len() == dest_len,
                bytes == src@.subrange(from as int, from + w),
                forall|k: int|
                    0 <= k < dest_len ==> #[trigger] dest@[k] == if to <= k < to + i {
                        bytes[k - to]
                    } else {
                        above[k]
                    },
        {
            dest[to + i] = src[from + i];
        }
        assert(dest@ =~= overwritten(above, to as int, bytes));
    }
}

proof fn lemma_row_inside(pitch: int, row: int, count: int)
    requires
        0 <= row < count,
        0 <= pitch,
    ensures
        0 <= row * pitch,
        row * pitch <= pitch * (count - 1),
        row * pitch + pitch <= pitch * count,
{
    assert(0 <= row * pitch && row * pitch <= pitch * (count - 1) && row * pitch + pitch <= pitch
        * count) by (nonlinear_arith)
        requires
            0 <= row < count,
            0 <= pitch,
    ;
}

/// What lies in a buffer where the `row`th of the written rows has its `i`th byte,
/// and where no row was written.
pub proof fn law_rows_keep_their_place(
    dest: Seq<u8>,
    offset: int,
    pitch: int,
    src: Seq<u8>,
    src_offset: int,
    src_stride: int,
    w: int,
    count: nat,
)
    requires
        0 <= w <= src_stride,
        w <= pitch,
        0 <= offset,
        0 <= src_offset,
        src_offset + src_stride * count <= src.len(),
        count > 0 ==> offset + pitch * (count - 1) + w <= dest.len(),
    ensures
        with_rows(dest, offset, pitch, src, src_offset, src_stride, w, count).len() == dest.len(),
        forall|row: int, i: int|
            #![trigger src[src_offset + row * src_stride + i]]
            0 <= row < count && 0 <= i < w ==> with_rows(
                dest,
                offset,
                pitch,
                src,
                src_offset,
                src_stride,
                w,
                count,
            )[offset + row * pitch + i] == src[src_offset + row * src_stride + i],
        forall|k: int|
            #![trigger dest[k]]
            0 <= k < dest.len() && (forall|row: int|
                0 <= row < count ==> !(offset + #[trigger] (row * pitch) <= k < offset + row * pitch
                    + w)) ==> with_rows(
                dest,
                offset,
                pitch,
                src,
                src_offset,
                src_stride,
                w,
                count,
            )[k] == dest[k],
    decreases count,
{
    if count > 0 {
        let last = count - 1;
        assert(src_stride * last <= src_stride * count) by (nonlinear_arith)
            requires
                0 <= src_stride,
                last == count - 1,
        ;
        assert(pitch * (last - 1) <= pitch * (count - 1)) by (nonlinear_arith)
            requires
                0 <= pitch,
                last == count - 1,
        ;
        law_rows_keep_their_place(
            dest,
            offset,
            pitch,
            src,
            src_offset,
            src_stride,
            w,
            (count - 1) as nat,
        );
        lemma_row_inside(src_stride, last, count as int);
        lemma_row_inside(pitch, last, count as int);
        let before = with_rows(
            dest,
            offset,
            pitch,
            src,
            src_offset,
            src_stride,
            w,
            (count - 1) as nat,
        );
        let after = with_rows(dest, offset, pitch, src, src_offset, src_stride, w, count);
        let at = offset + last * pitch;
        let from = src_offset + last * src_stride;
        assert(after == overwritten(before, at, src.subrange(from, from + w)));
        assert forall|row: int, i: int|
            #![trigger src[src_offset + row * src_stride + i]]
            0 <= row < count && 0 <= i < w implies after[offset + row * pitch + i] == src[src_offset
            + row * src_stride + i] by {
            lemma_row_inside(pitch, row, count as int);
            if row == last {
                assert(src.subrange(from, from + w)[i] == src[from + i]);
            } else {
                assert(row * pitch + pitch <= last * pitch) by (nonlinear_arith)
                    requires
                        row < last,
                        0 <= pitch,
                ;
                assert(before[offset + row * pitch + i] == src[src_offset + row * src_stride + i]);
            }
        }
        assert forall|k: int|
            #![trigger dest[k]]
            0 <= k < dest.len() && (forall|row: int|
                0 <= row < count ==> !(offset + #[trigger] (row * pitch) <= k < offset + row * pitch
                    + w)) implies after[k] == dest[k] by {
            assert(!(offset + last * pitch <= k < offset + last * pitch + w));
            assert(before[k] == dest[k]);
        }
    }
}

} // verus!
