//! The frame compositor: maps decoded indexed pixels into the destination
//! byte layout under offset, clipping, row padding and a fixed
//! channel-order reversal.

use vstd::prelude::*;
use crate::frame::{
    DecodedFrame, PaletteBoundsError, first_offense, index_fits, offending_at, opaque_value,
    palette_covers,
};
use crate::geometry::{FramebufferInfo, Offset};

verus! {

/// Destination column of source column `x` after placement and offset.
pub open spec fn dest_x(frame: DecodedFrame, off: Offset, x: int) -> int {
    x + frame.left + off.x
}

/// Destination row of source row `y` after placement and offset.
pub open spec fn dest_y(frame: DecodedFrame, off: Offset, y: int) -> int {
    y + frame.top + off.y
}

/// Byte offset of destination pixel `(dx, dy)` in the destination buffer:
/// pixels are laid out row-major with `channels` bytes each, and every row
/// carries `alignment` extra padding bytes.
pub open spec fn dest_offset(geom: FramebufferInfo, dx: int, dy: int) -> int {
    (dy * geom.width + dx) * geom.channels + dy * geom.alignment
}

/// The palette index stored for source pixel `(x, y)`.
pub open spec fn src_pixel(frame: DecodedFrame, x: int, y: int) -> u8 {
    frame.buffer@[y * frame.width + x]
}

/// Source pixel `(x, y)` is written by compositing: it lies within the
/// frame, its destination coordinate lies on the canvas, and it is not the
/// transparent index.
pub open spec fn pixel_written(frame: DecodedFrame, geom: FramebufferInfo, off: Offset, x: int, y: int) -> bool {
    &&& 0 <= x < frame.width
    &&& 0 <= y < frame.height
    &&& 0 <= dest_x(frame, off, x) < geom.width
    &&& 0 <= dest_y(frame, off, y) < geom.height
    &&& opaque_value(frame, src_pixel(frame, x, y))
}

/// Byte position `k` lies among the three channel bytes that source pixel
/// `(x, y)` targets.
pub open spec fn covers_byte(frame: DecodedFrame, geom: FramebufferInfo, off: Offset, x: int, y: int, k: int) -> bool {
    let o = dest_offset(geom, dest_x(frame, off, x), dest_y(frame, off, y));
    o <= k < o + 3
}

/// Some written pixel targets byte position `k`.
pub open spec fn byte_written(frame: DecodedFrame, geom: FramebufferInfo, off: Offset, k: int) -> bool {
    exists|x: int, y: int|
        #[trigger] pixel_written(frame, geom, off, x, y) && covers_byte(frame, geom, off, x, y, k)
}

/// The three channel bytes of source pixel `(x, y)` hold its palette entry
/// in reversed order: the entry's third, second and first byte at channel
/// offsets 0, 1 and 2.
pub open spec fn pixel_bytes_set(news: Seq<u8>, frame: DecodedFrame, palette: Seq<u8>, geom: FramebufferInfo, off: Offset, x: int, y: int) -> bool {
    let o = dest_offset(geom, dest_x(frame, off, x), dest_y(frame, off, y));
    let p = src_pixel(frame, x, y) as int;
    &&& news[o] == palette[3 * p + 2]
    &&& news[o + 1] == palette[3 * p + 1]
    &&& news[o + 2] == palette[3 * p]
}

/// Everything compositing does to the destination buffer: every written
/// pixel's channel bytes hold its reversed palette entry, and every byte no
/// written pixel targets is unchanged.
pub open spec fn composite_post(olds: Seq<u8>, news: Seq<u8>, frame: DecodedFrame, palette: Seq<u8>, geom: FramebufferInfo, off: Offset) -> bool {
    &&& news.len() == olds.len()
    &&& forall|x: int, y: int|
        #[trigger] pixel_written(frame, geom, off, x, y) ==> pixel_bytes_set(
            news,
            frame,
            palette,
            geom,
            off,
            x,
            y,
        )
    &&& forall|k: int|
        0 <= k < news.len() && !(#[trigger] byte_written(frame, geom, off, k)) ==> news[k]
            == olds[k]
}

/// Scan-order position `(xx, yy)` comes strictly before `(x, y)`.
spec fn scanned_before(xx: int, yy: int, x: int, y: int) -> bool {
    yy < y || (yy == y && xx < x)
}

/// Some written pixel scanned before `(x, y)` targets byte position `k`.
spec fn byte_written_before(frame: DecodedFrame, geom: FramebufferInfo, off: Offset, x: int, y: int, k: int) -> bool {
    exists|xx: int, yy: int|
        #[trigger] pixel_written(frame, geom, off, xx, yy) && scanned_before(xx, yy, x, y)
            && covers_byte(frame, geom, off, xx, yy, k)
}

/// Clamps `v` into `[0, hi]`.
spec fn clip(v: int, hi: int) -> int {
    if v <= 0 {
        0
    } else if v >= hi {
        hi
    } else {
        v
    }
}

/// A destination pixel's byte offset and its two successors stay within the
/// buffer the geometry calls for, and the offset arithmetic never leaves
/// the nonnegative range.
proof fn lemma_offset_bounds(gw: int, gh: int, ch: int, al: int, dx: int, dy: int)
    requires
        0 < gw,
        0 < gh,
        3 <= ch,
        0 <= al,
        0 <= dx < gw,
        0 <= dy < gh,
    ensures
        0 <= dy * gw,
        0 <= dy * gw + dx,
        dy * gw + dx <= (dy * gw + dx) * ch,
        0 <= dy * al,
        (dy * gw + dx) * ch + dy * al + 3 <= gh * (gw * ch + al),
{
    assert(0 <= dy * gw) by (nonlinear_arith)
        requires
            0 <= dy,
            0 < gw,
    ;
    assert(dy * gw + dx <= (dy * gw + dx) * ch) by (nonlinear_arith)
        requires
            0 <= dy * gw + dx,
            1 <= ch,
    ;
    assert(0 <= dy * al) by (nonlinear_arith)
        requires
            0 <= dy,
            0 <= al,
    ;
    assert((dy * gw + dx) * ch + dy * al + 3 <= (dy + 1) * (gw * ch + al)) by (nonlinear_arith)
        requires
            0 < gw,
            3 <= ch,
            0 <= al,
            0 <= dx < gw,
            0 <= dy,
    ;
    assert((dy + 1) * (gw * ch + al) <= gh * (gw * ch + al)) by (nonlinear_arith)
        requires
            dy + 1 <= gh,
            0 < gw,
            3 <= ch,
            0 <= al,
    ;
}

/// Clamps `v` into `[0, hi]` and narrows it to `usize`.
fn clip_to(v: i128, hi: usize) -> (r: usize)
    requires
        hi <= 0xffff,
    ensures
        r as int == clip(v as int, hi as int),
{
    if v <= 0 {
        0
    } else if v >= hi as i128 {
        hi
    } else {
        v as usize
    }
}

/// Distinct destination pixels target byte ranges at least one pixel cell
/// apart, so their three channel bytes never overlap.
proof fn lemma_offset_disjoint(gw: int, gh: int, ch: int, al: int, dx1: int, dy1: int, dx2: int, dy2: int)
    requires
        0 < gw,
        0 < gh,
        3 <= ch,
        0 <= al,
        0 <= dx1 < gw,
        0 <= dy1 < gh,
        0 <= dx2 < gw,
        0 <= dy2 < gh,
        dx1 != dx2 || dy1 != dy2,
    ensures
        (dy1 * gw + dx1) * ch + dy1 * al + ch <= (dy2 * gw + dx2) * ch + dy2 * al || (dy2 * gw
            + dx2) * ch + dy2 * al + ch <= (dy1 * gw + dx1) * ch + dy1 * al,
{
    if dy1 == dy2 {
        if dx1 < dx2 {
            assert((dy1 * gw + dx1) * ch + ch <= (dy2 * gw + dx2) * ch) by (nonlinear_arith)
                requires
                    dy1 == dy2,
                    dx1 + 1 <= dx2,
                    3 <= ch,
            ;
        } else {
            assert((dy2 * gw + dx2) * ch + ch <= (dy1 * gw + dx1) * ch) by (nonlinear_arith)
                requires
                    dy1 == dy2,
                    dx2 + 1 <= dx1,
                    3 <= ch,
            ;
        }
    } else if dy1 < dy2 {
        assert((dy1 * gw + dx1) * ch + dy1 * al + ch <= (dy2 * gw + dx2) * ch + dy2 * al)
            by (nonlinear_arith)
            requires
                dy1 + 1 <= dy2,
                0 <= dx1 < gw,
                0 <= dx2,
                0 <= al,
                3 <= ch,
                0 < gw,
                0 <= dy1,
        ;
    } else {
        assert((dy2 * gw + dx2) * ch + dy2 * al + ch <= (dy1 * gw + dx1) * ch + dy1 * al)
            by (nonlinear_arith)
            requires
                dy2 + 1 <= dy1,
                0 <= dx2 < gw,
                0 <= dx1,
                0 <= al,
                3 <= ch,
                0 < gw,
                0 <= dy2,
        ;
    }
}

/// Rows and columns share a destination row stride: a pixel's byte offset
/// splits into a whole number of strides plus its position within the row.
proof fn lemma_offset_in_row(gw: int, ch: int, al: int, dx: int, dy: int)
    requires
        0 < gw,
        3 <= ch,
        0 <= al,
        0 <= dx < gw,
        0 <= dy,
    ensures
        (dy * gw + dx) * ch + dy * al == dy * (gw * ch + al) + dx * ch,
        0 <= dx * ch,
        dx * ch + 3 <= gw * ch,
{
    assert((dy * gw + dx) * ch + dy * al == dy * (gw * ch + al) + dx * ch) by (nonlinear_arith);
    assert(0 <= dx * ch) by (nonlinear_arith)
        requires
            0 <= dx,
            3 <= ch,
    ;
    assert(dx * ch + ch <= gw * ch) by (nonlinear_arith)
        requires
            dx + 1 <= gw,
            3 <= ch,
    ;
}

/// Two decompositions of the same byte position into full rows plus an
/// in-row remainder agree on the row and the remainder.
proof fn lemma_row_unique(s: int, a: int, b: int, r1: int, r2: int)
    requires
        0 < s,
        0 <= r1 < s,
        0 <= r2 < s,
        a * s + r1 == b * s + r2,
    ensures
        a == b,
        r1 == r2,
{
    assert(a == b && r1 == r2) by (nonlinear_arith)
        requires
            0 < s,
            0 <= r1 < s,
            0 <= r2 < s,
            a * s + r1 == b * s + r2,
    ;
}

/// A source pixel whose destination coordinate falls off the canvas is
/// never written, whatever its value: compositing clips it away, and by
/// `composite_post` the bytes it would have targeted stay unchanged.
pub proof fn lemma_clipped_pixel_unwritten(frame: DecodedFrame, geom: FramebufferInfo, off: Offset, x: int, y: int)
    requires
        !(0 <= dest_x(frame, off, x) < geom.width) || !(0 <= dest_y(frame, off, y)
            < geom.height),
    ensures
        !pixel_written(frame, geom, off, x, y),
{
}

/// With no transparent index and a placement that covers the whole canvas,
/// compositing writes every canvas pixel: the three channel bytes of
/// destination pixel `(dx, dy)` hold the reversed palette entry of the
/// source pixel that lands there.
pub proof fn lemma_full_cover_exact(olds: Seq<u8>, news: Seq<u8>, frame: DecodedFrame, palette: Seq<u8>, geom: FramebufferInfo, off: Offset, dx: int, dy: int)
    requires
        composite_post(olds, news, frame, palette, geom, off),
        frame.transparent is None,
        dest_x(frame, off, 0) <= 0,
        dest_y(frame, off, 0) <= 0,
        geom.width <= dest_x(frame, off, frame.width - 1) + 1,
        geom.height <= dest_y(frame, off, frame.height - 1) + 1,
        0 <= dx < geom.width,
        0 <= dy < geom.height,
    ensures
        pixel_bytes_set(news, frame, palette, geom, off, dx - frame.left - off.x, dy - frame.top
            - off.y),
{
    let x = dx - frame.left - off.x;
    let y = dy - frame.top - off.y;
    assert(0 <= x < frame.width);
    assert(0 <= y < frame.height);
    assert(dest_x(frame, off, x) == dx);
    assert(dest_y(frame, off, y) == dy);
    assert(pixel_written(frame, geom, off, x, y));
}

/// A frame all of whose pixels carry the transparent index changes nothing:
/// compositing it over any buffer leaves every byte as it was.
pub proof fn lemma_transparent_frame_unchanged(olds: Seq<u8>, news: Seq<u8>, frame: DecodedFrame, palette: Seq<u8>, geom: FramebufferInfo, off: Offset, t: u8)
    requires
        composite_post(olds, news, frame, palette, geom, off),
        frame.wf(),
        frame.transparent == Some(t),
        forall|i: int| 0 <= i < frame.buffer@.len() ==> #[trigger] frame.buffer@[i] == t,
    ensures
        news =~= olds,
{
    assert forall|k: int| 0 <= k < news.len() implies news[k] == olds[k] by {
        if byte_written(frame, geom, off, k) {
            let (x, y) = choose|x: int, y: int|
                #[trigger] pixel_written(frame, geom, off, x, y) && covers_byte(
                    frame,
                    geom,
                    off,
                    x,
                    y,
                    k,
                );
            assert(0 <= y * frame.width + x < frame.buffer@.len()) by (nonlinear_arith)
                requires
                    0 <= x < frame.width,
                    0 <= y < frame.height,
                    frame.buffer@.len() == frame.width * frame.height,
            ;
            assert(frame.buffer@[y * frame.width + x] == t);
            assert(!opaque_value(frame, src_pixel(frame, x, y)));
            assert(false);
        }
    }
}

/// Row padding bytes are never written: within any destination row, every
/// byte position past the row's pixel data is left unchanged by
/// compositing.
pub proof fn lemma_padding_unwritten(olds: Seq<u8>, news: Seq<u8>, frame: DecodedFrame, palette: Seq<u8>, geom: FramebufferInfo, off: Offset, row: int, rpos: int)
    requires
        composite_post(olds, news, frame, palette, geom, off),
        geom.wf(),
        olds.len() >= geom.buffer_len(),
        0 <= row < geom.height,
        geom.width * geom.channels <= rpos < geom.row_stride(),
    ensures
        news[row * geom.row_stride() + rpos] == olds[row * geom.row_stride() + rpos],
{
    let s = geom.row_stride();
    let k = row * s + rpos;
    assert(0 < geom.width * geom.channels) by (nonlinear_arith)
        requires
            0 < geom.width,
            3 <= geom.channels,
    ;
    assert(0 <= row * s && row * s + s <= geom.height * s) by (nonlinear_arith)
        requires
            0 <= row,
            row + 1 <= geom.height,
            0 < s,
    ;
    assert(0 <= k < geom.buffer_len());
    if byte_written(frame, geom, off, k) {
        let (x, y) = choose|x: int, y: int|
            #[trigger] pixel_written(frame, geom, off, x, y) && covers_byte(frame, geom, off, x, y, k);
        let dx = dest_x(frame, off, x);
        let dy = dest_y(frame, off, y);
        lemma_offset_in_row(geom.width as int, geom.channels as int, geom.alignment as int, dx, dy);
        let c = k - dest_offset(geom, dx, dy);
        assert(k == dy * s + (dx * geom.channels + c));
        assert(0 <= dx * geom.channels + c < s);
        lemma_row_unique(s, dy, row, dx * geom.channels + c, rpos);
        assert(false);
    }
}

/// Compositing is a function of its inputs: two buffers that start equal
/// and receive the same frame against the same palette, geometry and
/// offset end equal, byte for byte.  Replaying an unchanged stream
/// therefore reproduces identical flushes, cycle after cycle.
pub proof fn lemma_composite_deterministic(olds: Seq<u8>, n1: Seq<u8>, n2: Seq<u8>, frame: DecodedFrame, palette: Seq<u8>, geom: FramebufferInfo, off: Offset)
    requires
        composite_post(olds, n1, frame, palette, geom, off),
        composite_post(olds, n2, frame, palette, geom, off),
    ensures
        n1 =~= n2,
{
    assert forall|k: int| 0 <= k < n1.len() implies n1[k] == n2[k] by {
        if byte_written(frame, geom, off, k) {
            let (x, y) = choose|x: int, y: int|
                #[trigger] pixel_written(frame, geom, off, x, y) && covers_byte(frame, geom, off, x, y, k);
            assert(pixel_bytes_set(n1, frame, palette, geom, off, x, y));
            assert(pixel_bytes_set(n2, frame, palette, geom, off, x, y));
        }
    }
}

/// Composites one decoded frame into the destination buffer, in place.
///
/// Every source pixel is mapped through the frame's placement and the
/// caller's offset, clipped against the canvas, dropped when it carries the
/// transparent index, and otherwise written as its palette entry's three
/// bytes in reversed channel order.  A frame whose opaque pixels reference
/// an index beyond the resolved palette is rejected whole, before any byte
/// is written.
pub fn composite(frame: &DecodedFrame, palette: &Vec<u8>, dest: &mut Vec<u8>, geom: &FramebufferInfo, off: &Offset) -> (r: Result<(), PaletteBoundsError>)
    requires
        frame.wf(),
        geom.wf(),
        off.in_range(),
        old(dest).len() >= geom.buffer_len(),
    ensures
        final(dest).len() == old(dest).len(),
        match r {
            Ok(()) => palette_covers(*frame, palette@) && composite_post(
                old(dest)@,
                final(dest)@,
                *frame,
                palette@,
                *geom,
                *off,
            ),
            Err(e) => {
                &&& final(dest)@ == old(dest)@
                &&& !palette_covers(*frame, palette@)
                &&& first_offense(*frame, palette@, e)
            },
        },
{
    let ghost olds: Seq<u8> = dest@;
    // Defensive palette-bounds scan: reject the frame before any byte of the
    // destination is touched.
    let n: usize = frame.buffer.len();
    let mut idx: usize = 0;
    while idx < n
        invariant
            idx <= n,
            n == frame.buffer@.len(),
            forall|j: int| 0 <= j < idx ==> !(#[trigger] offending_at(*frame, palette@, j)),
        decreases n - idx,
    {
        let p = frame.buffer[idx];
        let opaque = match frame.transparent {
            Some(t) => p != t,
            None => true,
        };
        if opaque && 3 * (p as usize) + 3 > palette.len() {
            assert(offending_at(*frame, palette@, idx as int));
            assert(!palette_covers(*frame, palette@));
            return Err(PaletteBoundsError { color_index: p, palette_len: palette.len() });
        }
        idx += 1;
    }
    proof {
        assert forall|i: int|
            0 <= i < frame.buffer@.len() && opaque_value(*frame, #[trigger] frame.buffer@[i])
                implies index_fits(palette@, frame.buffer@[i]) by {
            assert(!offending_at(*frame, palette@, i));
        }
        assert(palette_covers(*frame, palette@));
    }

    let fw: usize = frame.width as usize;
    let fh: usize = frame.height as usize;
    let gw: i64 = geom.width;
    let gh: i64 = geom.height;
    let ch: i64 = geom.channels;
    let al: i64 = geom.alignment;
    let base_x: i64 = frame.left as i64 + off.x;
    let base_y: i64 = frame.top as i64 + off.y;
    // Clip the scan to the rows and columns whose destination coordinates
    // lie on the canvas; everything outside is skipped unwritten.
    let x_start: usize = clip_to(-(base_x as i128), fw);
    let x_end: usize = clip_to(gw as i128 - base_x as i128, fw);
    let y_start: usize = clip_to(-(base_y as i128), fh);
    let y_end: usize = clip_to(gh as i128 - base_y as i128, fh);

    let mut y: usize = y_start;
    while y < y_end
        invariant
            frame.wf(),
            geom.wf(),
            off.in_range(),
            palette_covers(*frame, palette@),
            fw == frame.width,
            fh == frame.height,
            gw == geom.width,
            gh == geom.height,
            ch == geom.channels,
            al == geom.alignment,
            base_x == frame.left + off.x,
            base_y == frame.top + off.y,
            x_start as int == clip(-(base_x as int), fw as int),
            x_end as int == clip(gw - base_x as int, fw as int),
            y_start as int == clip(-(base_y as int), fh as int),
            y_end as int == clip(gh - base_y as int, fh as int),
            y_start <= y <= y_end <= fh,
            x_start <= x_end <= fw,
            olds.len() >= geom.buffer_len(),
            frame.buffer@.len() <= usize::MAX,
            dest.len() == olds.len(),
            forall|xx: int, yy: int|
                #[trigger] pixel_written(*frame, *geom, *off, xx, yy) && scanned_before(
                    xx,
                    yy,
                    x_start as int,
                    y as int,
                ) ==> pixel_bytes_set(dest@, *frame, palette@, *geom, *off, xx, yy),
            forall|k: int|
                0 <= k < dest.len() && !(#[trigger] byte_written_before(
                    *frame,
                    *geom,
                    *off,
                    x_start as int,
                    y as int,
                    k,
                )) ==> dest@[k] == olds[k],
        decreases y_end - y,
    {
        let mut x: usize = x_start;
        while x < x_end
            invariant
                frame.wf(),
                geom.wf(),
                off.in_range(),
                palette_covers(*frame, palette@),
                fw == frame.width,
                fh == frame.height,
                gw == geom.width,
                gh == geom.height,
                ch == geom.channels,
                al == geom.alignment,
                base_x == frame.left + off.x,
                base_y == frame.top + off.y,
                x_start as int == clip(-(base_x as int), fw as int),
                x_end as int == clip(gw - base_x as int, fw as int),
                y_start as int == clip(-(base_y as int), fh as int),
                y_end as int == clip(gh - base_y as int, fh as int),
                y_start <= y < y_end <= fh,
                x_start <= x <= x_end <= fw,
                olds.len() >= geom.buffer_len(),
                frame.buffer@.len() <= usize::MAX,
                dest.len() == olds.len(),
                forall|xx: int, yy: int|
                    #[trigger] pixel_written(*frame, *geom, *off, xx, yy) && scanned_before(
                        xx,
                        yy,
                        x as int,
                        y as int,
                    ) ==> pixel_bytes_set(dest@, *frame, palette@, *geom, *off, xx, yy),
                forall|k: int|
                    0 <= k < dest.len() && !(#[trigger] byte_written_before(
                        *frame,
                        *geom,
                        *off,
                        x as int,
                        y as int,
                        k,
                    )) ==> dest@[k] == olds[k],
            decreases x_end - x,
        {
            proof {
                assert(y * fw + x < fh * fw && y * fw + x < frame.width * frame.height)
                    by (nonlinear_arith)
                    requires
                        0 <= y,
                        y < fh,
                        0 <= x < fw,
                        fw == frame.width,
                        fh == frame.height,
                ;
            }
            let pos: usize = y * fw + x;
            let p = frame.buffer[pos];
            let opaque = match frame.transparent {
                Some(t) => p != t,
                None => true,
            };
            if opaque {
                let dx_i: i64 = x as i64 + base_x;
                let dy_i: i64 = y as i64 + base_y;
                proof {
                    lemma_offset_bounds(
                        gw as int,
                        gh as int,
                        ch as int,
                        al as int,
                        dx_i as int,
                        dy_i as int,
                    );
                    assert(gh * (gw * ch + al) == geom.buffer_len());
                }
                let t2: i64 = dy_i * gw + dx_i;
                let o64: i64 = t2 * ch + dy_i * al;
                let o: usize = o64 as usize;
                proof {
                    assert(o as int == dest_offset(*geom, dx_i as int, dy_i as int));
                    assert(o + 3 <= geom.buffer_len());
                    assert(frame.buffer@[pos as int] == p);
                    assert(opaque_value(*frame, p));
                    assert(index_fits(palette@, p));
                    assert(pixel_written(*frame, *geom, *off, x as int, y as int));
                    assert(dest_x(*frame, *off, x as int) == dx_i);
                    assert(dest_y(*frame, *off, y as int) == dy_i);
                    assert(src_pixel(*frame, x as int, y as int) == p);
                }
                let j: usize = (p as usize) * 3;
                let c2 = palette[j + 2];
                let c1 = palette[j + 1];
                let c0 = palette[j];
                let ghost pre: Seq<u8> = dest@;
                dest[o] = c2;
                dest[o + 1] = c1;
                dest[o + 2] = c0;
                proof {
                    assert(dest@ == pre.update(o as int, c2).update(o as int + 1, c1).update(
                        o as int + 2,
                        c0,
                    ));
                    assert(pixel_bytes_set(dest@, *frame, palette@, *geom, *off, x as int, y as int));
                    assert forall|xx: int, yy: int|
                        #[trigger] pixel_written(*frame, *geom, *off, xx, yy) && scanned_before(
                            xx,
                            yy,
                            x as int + 1,
                            y as int,
                        ) implies pixel_bytes_set(dest@, *frame, palette@, *geom, *off, xx, yy) by {
                        if xx != x as int || yy != y as int {
                            assert(scanned_before(xx, yy, x as int, y as int));
                            assert(pixel_bytes_set(pre, *frame, palette@, *geom, *off, xx, yy));
                            let dxx = dest_x(*frame, *off, xx);
                            let dyy = dest_y(*frame, *off, yy);
                            lemma_offset_disjoint(
                                gw as int,
                                gh as int,
                                ch as int,
                                al as int,
                                dxx,
                                dyy,
                                dx_i as int,
                                dy_i as int,
                            );
                            assert(dest_offset(*geom, dxx, dyy) == (dyy * gw + dxx) * ch + dyy
                                * al);
                            lemma_offset_bounds(gw as int, gh as int, ch as int, al as int, dxx, dyy);
                            assert(dest_offset(*geom, dxx, dyy) + 3 <= geom.buffer_len());
                        }
                    }
                    assert forall|k: int|
                        0 <= k < dest.len() && !(#[trigger] byte_written_before(
                            *frame,
                            *geom,
                            *off,
                            x as int + 1,
                            y as int,
                            k,
                        )) implies dest@[k] == olds[k] by {
                        assert(scanned_before(x as int, y as int, x as int + 1, y as int));
                        if k == o as int || k == o as int + 1 || k == o as int + 2 {
                            assert(covers_byte(*frame, *geom, *off, x as int, y as int, k));
                            assert(byte_written_before(
                                *frame,
                                *geom,
                                *off,
                                x as int + 1,
                                y as int,
                                k,
                            ));
                        }
                        if byte_written_before(*frame, *geom, *off, x as int, y as int, k) {
                            let (xx, yy) = choose|xx: int, yy: int|
                                #[trigger] pixel_written(*frame, *geom, *off, xx, yy)
                                    && scanned_before(xx, yy, x as int, y as int) && covers_byte(
                                    *frame,
                                    *geom,
                                    *off,
                                    xx,
                                    yy,
                                    k,
                                );
                            assert(scanned_before(xx, yy, x as int + 1, y as int));
                            assert(byte_written_before(
                                *frame,
                                *geom,
                                *off,
                                x as int + 1,
                                y as int,
                                k,
                            ));
                        }
                        assert(dest@[k] == pre[k]);
                    }
                }
            } else {
                proof {
                    assert(!opaque_value(*frame, src_pixel(*frame, x as int, y as int)));
                    assert forall|k: int|
                        0 <= k < dest.len() && !(#[trigger] byte_written_before(
                            *frame,
                            *geom,
                            *off,
                            x as int + 1,
                            y as int,
                            k,
                        )) implies dest@[k] == olds[k] by {
                        if byte_written_before(*frame, *geom, *off, x as int, y as int, k) {
                            let (xx, yy) = choose|xx: int, yy: int|
                                #[trigger] pixel_written(*frame, *geom, *off, xx, yy)
                                    && scanned_before(xx, yy, x as int, y as int) && covers_byte(
                                    *frame,
                                    *geom,
                                    *off,
                                    xx,
                                    yy,
                                    k,
                                );
                            assert(scanned_before(xx, yy, x as int + 1, y as int));
                            assert(byte_written_before(
                                *frame,
                                *geom,
                                *off,
                                x as int + 1,
                                y as int,
                                k,
                            ));
                        }
                    }
                }
            }
            x += 1;
        }
        proof {
            assert forall|xx: int, yy: int|
                #[trigger] pixel_written(*frame, *geom, *off, xx, yy) && scanned_before(
                    xx,
                    yy,
                    x_start as int,
                    y as int + 1,
                ) implies pixel_bytes_set(dest@, *frame, palette@, *geom, *off, xx, yy) by {
                assert(scanned_before(xx, yy, x_end as int, y as int));
            }
            assert forall|k: int|
                0 <= k < dest.len() && !(#[trigger] byte_written_before(
                    *frame,
                    *geom,
                    *off,
                    x_start as int,
                    y as int + 1,
                    k,
                )) implies dest@[k] == olds[k] by {
                if byte_written_before(*frame, *geom, *off, x_end as int, y as int, k) {
                    let (xx, yy) = choose|xx: int, yy: int|
                        #[trigger] pixel_written(*frame, *geom, *off, xx, yy) && scanned_before(
                            xx,
                            yy,
                            x_end as int,
                            y as int,
                        ) && covers_byte(*frame, *geom, *off, xx, yy, k);
                    assert(scanned_before(xx, yy, x_start as int, y as int + 1));
                    assert(byte_written_before(
                        *frame,
                        *geom,
                        *off,
                        x_start as int,
                        y as int + 1,
                        k,
                    ));
                }
            }
        }
        y += 1;
    }
    proof {
        assert forall|xx: int, yy: int|
            #[trigger] pixel_written(*frame, *geom, *off, xx, yy) implies pixel_bytes_set(
            dest@,
            *frame,
            palette@,
            *geom,
            *off,
            xx,
            yy,
        ) by {
            assert(scanned_before(xx, yy, x_start as int, y_end as int));
        }
        assert forall|k: int|
            0 <= k < dest.len() && !(#[trigger] byte_written(*frame, *geom, *off, k))
                implies dest@[k] == olds[k] by {
            if byte_written_before(*frame, *geom, *off, x_start as int, y_end as int, k) {
                let (xx, yy) = choose|xx: int, yy: int|
                    #[trigger] pixel_written(*frame, *geom, *off, xx, yy) && scanned_before(
                        xx,
                        yy,
                        x_start as int,
                        y_end as int,
                    ) && covers_byte(*frame, *geom, *off, xx, yy, k);
                assert(byte_written(*frame, *geom, *off, k));
            }
        }
        assert(composite_post(olds, dest@, *frame, palette@, *geom, *off));
    }
    Ok(())
}

} // verus!
