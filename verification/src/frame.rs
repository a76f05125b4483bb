//! Decoded frames, palettes, and the palette-bounds check.

use vstd::prelude::*;

verus! {

/// One decoded frame of the animation: placement within the logical canvas,
/// an optional transparent palette index, row-major indexed pixel data (one
/// byte per pixel), and an optional frame-local palette that overrides the
/// stream's global one.
pub struct DecodedFrame {
    pub width: u16,
    pub height: u16,
    pub left: u16,
    pub top: u16,
    pub transparent: Option<u8>,
    pub buffer: Vec<u8>,
    pub palette: Option<Vec<u8>>,
}

impl DecodedFrame {
    /// The pixel data carries exactly one index byte per pixel.
    pub open spec fn wf(self) -> bool {
        self.buffer@.len() == self.width * self.height
    }
}

/// A frame that references a palette index whose RGB triple lies beyond the
/// resolved palette; compositing refuses such a frame rather than read past
/// the palette.
#[derive(Debug)]
pub struct PaletteBoundsError {
    pub color_index: u8,
    pub palette_len: usize,
}

/// A pixel carrying this index value is opaque: it is not the frame's
/// transparent index.
pub open spec fn opaque_value(frame: DecodedFrame, p: u8) -> bool {
    frame.transparent != Some(p)
}

/// The palette holds a full RGB triple for index `p`.
pub open spec fn index_fits(palette: Seq<u8>, p: u8) -> bool {
    3 * (p as int) + 3 <= palette.len()
}

/// Every opaque pixel of the frame references a palette index whose triple
/// the palette holds.
pub open spec fn palette_covers(frame: DecodedFrame, palette: Seq<u8>) -> bool {
    forall|i: int|
        0 <= i < frame.buffer@.len() && opaque_value(frame, #[trigger] frame.buffer@[i])
            ==> index_fits(palette, frame.buffer@[i])
}

/// The opaque pixel at flat position `i` references an index beyond the
/// palette.
pub open spec fn offending_at(frame: DecodedFrame, palette: Seq<u8>, i: int) -> bool {
    &&& 0 <= i < frame.buffer@.len()
    &&& opaque_value(frame, frame.buffer@[i])
    &&& !index_fits(palette, frame.buffer@[i])
}

/// The error reports the first out-of-range index in scan order, together
/// with the length of the palette it overran.
pub open spec fn first_offense(frame: DecodedFrame, palette: Seq<u8>, e: PaletteBoundsError) -> bool {
    exists|i: int|
        {
            &&& #[trigger] offending_at(frame, palette, i)
            &&& e.color_index == frame.buffer@[i]
            &&& e.palette_len == palette.len()
            &&& forall|j: int| 0 <= j < i ==> !offending_at(frame, palette, j)
        }
}

/// The palette a frame is composited against: its own if it carries one,
/// the stream's global palette otherwise.
pub open spec fn resolved_palette(frame: DecodedFrame, global: Seq<u8>) -> Seq<u8> {
    match frame.palette {
        Some(p) => p@,
        None => global,
    }
}

/// Picks the frame-local palette when present, the global one otherwise.
pub fn resolve_palette<'a>(frame: &'a DecodedFrame, global: &'a Vec<u8>) -> (r: &'a Vec<u8>)
    ensures
        r@ == resolved_palette(*frame, global@),
{
    match &frame.palette {
        Some(p) => p,
        None => global,
    }
}

} // verus!
