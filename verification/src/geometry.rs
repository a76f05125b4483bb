//! Destination geometry, placement offsets, and centering.

use vstd::prelude::*;

verus! {

/// Geometry of the destination framebuffer: visible pixel grid, bytes per
/// pixel, and extra alignment bytes appended to every row by the device's
/// memory layout.
pub struct FramebufferInfo {
    pub width: i64,
    pub height: i64,
    pub channels: i64,
    pub alignment: i64,
}

impl FramebufferInfo {
    /// Bytes occupied by one destination row, alignment padding included.
    pub open spec fn row_stride(self) -> int {
        self.width * self.channels + self.alignment
    }

    /// Least destination buffer length that the geometry calls for.
    pub open spec fn buffer_len(self) -> int {
        self.height * self.row_stride()
    }

    /// A geometry the compositor can write through: positive pixel grid, at
    /// least the three colour channels per pixel that a palette entry fills,
    /// nonnegative row padding, and a total byte count that fits the
    /// machine's signed word.
    pub open spec fn wf(self) -> bool {
        &&& 0 < self.width
        &&& 0 < self.height
        &&& 3 <= self.channels
        &&& 0 <= self.alignment
        &&& self.buffer_len() <= i64::MAX
        &&& self.buffer_len() <= usize::MAX
    }

    /// Executable check of `wf`, for callers that receive a geometry from
    /// the device and must reject one the compositor cannot write through.
    pub fn is_well_formed(&self) -> (r: bool)
        ensures
            r == self.wf(),
    {
        if self.width <= 0 || self.height <= 0 || self.channels < 3 || self.alignment < 0 {
            return false;
        }
        let w = self.width as i128;
        let h = self.height as i128;
        let c = self.channels as i128;
        let a = self.alignment as i128;
        assert(w * c <= 0x7fff_ffff_ffff_ffff * 0x7fff_ffff_ffff_ffff) by (nonlinear_arith)
            requires
                0 < w <= 0x7fff_ffff_ffff_ffff,
                0 < c <= 0x7fff_ffff_ffff_ffff,
        ;
        assert(0 < w * c) by (nonlinear_arith)
            requires
                0 < w,
                0 < c,
        ;
        let stride = w * c + a;
        if stride > i64::MAX as i128 {
            assert(self.buffer_len() > i64::MAX) by (nonlinear_arith)
                requires
                    stride == self.width * self.channels + self.alignment,
                    stride > i64::MAX,
                    0 < h == self.height,
            ;
            return false;
        }
        assert(h * stride <= 0x7fff_ffff_ffff_ffff * 0x7fff_ffff_ffff_ffff) by (nonlinear_arith)
            requires
                0 < h <= 0x7fff_ffff_ffff_ffff,
                0 < stride <= 0x7fff_ffff_ffff_ffff,
        ;
        assert(0 < h * stride) by (nonlinear_arith)
            requires
                0 < h,
                0 < stride,
        ;
        let total = h * stride;
        if total <= i64::MAX as i128 {
            if usize::BITS >= 64 {
                true
            } else {
                total <= usize::MAX as i128
            }
        } else {
            false
        }
    }
}

/// Derives the destination geometry from the raw screen description the
/// device reports: horizontal and vertical resolution, bits per pixel, and
/// the byte length of one stored row.
pub fn get_framebuffer_info(xres: u32, yres: u32, bits_per_pixel: u32, line_length: u32) -> (r:
    FramebufferInfo)
    ensures
        r.width == xres,
        r.height == yres,
        r.channels == bits_per_pixel / 8,
        r.alignment == line_length - xres * (bits_per_pixel as int / 8),
{
    let channels: i64 = (bits_per_pixel / 8) as i64;
    assert(0 <= xres as int * channels as int <= 0xffff_ffff * 0x1fff_ffff) by (nonlinear_arith)
        requires
            0 <= xres <= 0xffff_ffffu64,
            0 <= channels <= 0x1fff_ffff,
    ;
    let alignment: i64 = line_length as i64 - xres as i64 * channels;
    FramebufferInfo { width: xres as i64, height: yres as i64, channels, alignment }
}

/// Signed pixel displacement applied to every frame before clipping.
pub struct Offset {
    pub x: i64,
    pub y: i64,
}

impl Offset {
    /// Displacements small enough that adding a frame placement (two
    /// sixteen-bit quantities) can never overflow the machine word.
    pub open spec fn in_range(self) -> bool {
        &&& -0x7fff_ffff_ffff_0000 <= self.x <= 0x7fff_ffff_ffff_0000
        &&& -0x7fff_ffff_ffff_0000 <= self.y <= 0x7fff_ffff_ffff_0000
    }
}

/// Centering displacement along one axis: `(canvas - frame) / 2` with
/// truncating division, negative when the frame exceeds the canvas.
pub fn center_offset(canvas: i64, frame: i64) -> (r: i64)
    requires
        0 <= canvas,
        0 <= frame,
    ensures
        canvas >= frame ==> r == (canvas - frame) / 2,
        canvas < frame ==> r == -((frame - canvas) / 2),
{
    if canvas >= frame {
        (canvas - frame) / 2
    } else {
        -((frame - canvas) / 2)
    }
}

/// The displacement playback uses: centred when requested, the identity
/// otherwise.
pub fn compute_offset(center: bool, canvas_w: i64, canvas_h: i64, frame_w: i64, frame_h: i64) -> (r:
    Offset)
    requires
        0 <= canvas_w <= u32::MAX,
        0 <= canvas_h <= u32::MAX,
        0 <= frame_w <= u16::MAX,
        0 <= frame_h <= u16::MAX,
    ensures
        center ==> r.x == center_offset_spec(canvas_w as int, frame_w as int),
        center ==> r.y == center_offset_spec(canvas_h as int, frame_h as int),
        !center ==> r == (Offset { x: 0, y: 0 }),
        r.in_range(),
{
    if center {
        Offset {
            x: center_offset(canvas_w, frame_w),
            y: center_offset(canvas_h, frame_h),
        }
    } else {
        Offset { x: 0, y: 0 }
    }
}

/// What `center_offset` returns, as a mathematical function.
pub open spec fn center_offset_spec(canvas: int, frame: int) -> int {
    if canvas >= frame {
        (canvas - frame) / 2
    } else {
        -((frame - canvas) / 2)
    }
}

} // verus!
