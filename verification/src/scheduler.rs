//! The playback scheduler: owns the destination buffer across frames and
//! loops, sequences decode / composite / flush cycles, paces frames, and
//! decides between single-pass and looping playback.

use vstd::prelude::*;
use crate::compositor::{composite, composite_post};
use crate::frame::{
    DecodedFrame, PaletteBoundsError, first_offense, palette_covers, resolve_palette,
    resolved_palette,
};
use crate::geometry::{FramebufferInfo, Offset};

verus! {

/// Phase of playback.  `Loading` opens and parses the source, `Playing`
/// consumes frames, and `Done` ends a single-pass run; a looping run goes
/// back from `Playing` to `Loading` at end of stream and never reaches
/// `Done`.
pub enum PlaybackState {
    Loading,
    Playing,
    Done,
}

/// Drives playback.  The destination buffer lives here for the whole run:
/// it is reused for every frame and every loop and never cleared between
/// frames, so transparent pixels deliberately show what the previous frame
/// left behind.
pub struct PlaybackScheduler {
    pub geom: FramebufferInfo,
    pub offset: Offset,
    pub interval: u64,
    pub once: bool,
    pub state: PlaybackState,
    /// Completed decode / composite / flush cycles, across all loops.
    pub cycles: u64,
    pub dest: Vec<u8>,
}

impl PlaybackScheduler {
    /// The geometry is one the compositor can write through, the offset
    /// leaves room for any frame placement, and the buffer is at least as
    /// long as the geometry calls for.
    pub open spec fn wf(self) -> bool {
        &&& self.geom.wf()
        &&& self.offset.in_range()
        &&& self.dest.len() >= self.geom.buffer_len()
    }

    /// Creates the scheduler at startup from the sink's geometry, the
    /// computed offset, the pacing interval and the single-pass flag, with
    /// a zeroed destination buffer of the sink's reported length.
    pub fn new(geom: FramebufferInfo, offset: Offset, interval: u64, once: bool, buffer_len: usize) -> (r: PlaybackScheduler)
        requires
            geom.wf(),
            offset.in_range(),
            buffer_len >= geom.buffer_len(),
        ensures
            r.wf(),
            r.geom == geom,
            r.offset == offset,
            r.interval == interval,
            r.once == once,
            r.state is Loading,
            r.cycles == 0,
            r.dest@.len() == buffer_len,
            forall|i: int| 0 <= i < buffer_len ==> r.dest@[i] == 0u8,
    {
        let mut dest: Vec<u8> = Vec::new();
        while dest.len() < buffer_len
            invariant
                dest@.len() <= buffer_len,
                forall|i: int| 0 <= i < dest@.len() ==> dest@[i] == 0u8,
            decreases buffer_len - dest@.len(),
        {
            dest.push(0u8);
        }
        PlaybackScheduler {
            geom,
            offset,
            interval,
            once,
            state: PlaybackState::Loading,
            cycles: 0,
            dest,
        }
    }

    /// The source has been opened and its header and global palette read:
    /// playback begins.
    pub fn begin(&mut self)
        requires
            old(self).state is Loading,
        ensures
            *final(self) == (PlaybackScheduler { state: PlaybackState::Playing, ..*old(self) }),
    {
        self.state = PlaybackState::Playing;
    }

    /// One decoded frame arrives: resolve its palette (frame-local if
    /// present, else the stream's global one) and composite it into the
    /// retained destination buffer.  The caller then flushes the full
    /// buffer to the sink.  A palette-bounds violation is fatal and leaves
    /// the buffer untouched.
    pub fn handle_frame(&mut self, frame: &DecodedFrame, global_palette: &Vec<u8>) -> (r: Result<
        (),
        PaletteBoundsError,
    >)
        requires
            old(self).wf(),
            old(self).state is Playing,
            frame.wf(),
        ensures
            final(self).wf(),
            final(self).state is Playing,
            final(self).geom == old(self).geom,
            final(self).offset == old(self).offset,
            final(self).interval == old(self).interval,
            final(self).once == old(self).once,
            final(self).dest.len() == old(self).dest.len(),
            match r {
                Ok(()) => final(self).cycles == (if old(self).cycles < u64::MAX {
                    old(self).cycles + 1
                } else {
                    old(self).cycles as int
                }) && palette_covers(*frame, resolved_palette(*frame, global_palette@))
                    && composite_post(
                    old(self).dest@,
                    final(self).dest@,
                    *frame,
                    resolved_palette(*frame, global_palette@),
                    old(self).geom,
                    old(self).offset,
                ),
                Err(e) => {
                    &&& final(self).cycles == old(self).cycles
                    &&& final(self).dest@ == old(self).dest@
                    &&& !palette_covers(*frame, resolved_palette(*frame, global_palette@))
                    &&& first_offense(*frame, resolved_palette(*frame, global_palette@), e)
                },
            },
    {
        let pal = resolve_palette(frame, global_palette);
        let r = composite(frame, pal, &mut self.dest, &self.geom, &self.offset);
        if r.is_ok() && self.cycles < u64::MAX {
            self.cycles = self.cycles + 1;
        }
        r
    }

    /// Full destination buffer, for the caller to flush to the sink.
    pub fn buffer(&self) -> (r: &Vec<u8>)
        ensures
            r@ == self.dest@,
    {
        &self.dest
    }

    /// Target inter-frame delay: the configured interval times the frame's
    /// declared delay units.  This is a direct product — an explicit pacing
    /// knob under caller control, not a centisecond conversion — and is
    /// kept verbatim.
    pub fn frame_delay(&self, delay_units: u16) -> (r: u64)
        requires
            self.interval * delay_units <= u64::MAX,
        ensures
            r == self.interval * delay_units,
    {
        self.interval * (delay_units as u64)
    }

    /// End of stream: a single-pass run finishes, a looping run goes back
    /// to loading the same source from the beginning.  The destination
    /// buffer and the offset are kept, not reset, so the next loop
    /// composites over what the last frame left.
    pub fn end_of_stream(&mut self) -> (again: bool)
        requires
            old(self).state is Playing,
        ensures
            again == !old(self).once,
            old(self).once ==> *final(self) == (PlaybackScheduler {
                state: PlaybackState::Done,
                ..*old(self)
            }),
            !old(self).once ==> *final(self) == (PlaybackScheduler {
                state: PlaybackState::Loading,
                ..*old(self)
            }),
    {
        if self.once {
            self.state = PlaybackState::Done;
            false
        } else {
            self.state = PlaybackState::Loading;
            true
        }
    }
}

/// Time still to wait before requesting the next frame: the target delay
/// less the wall time already elapsed since the previous pacing
/// checkpoint, and never negative — a late frame proceeds immediately,
/// with no catch-up or frame dropping.
pub fn remaining_delay(delay: u64, elapsed_ms: u64) -> (r: u64)
    ensures
        elapsed_ms < delay ==> r == delay - elapsed_ms,
        elapsed_ms >= delay ==> r == 0,
{
    if elapsed_ms < delay {
        delay - elapsed_ms
    } else {
        0
    }
}

} // verus!
