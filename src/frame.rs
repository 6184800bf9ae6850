//! Per-frame decisions and the frame buffer that a worker fills.
use vstd::prelude::*;

verus! {

/// Side length of each square frame, in pixels.
pub const SIZE: usize = 600;

/// Number of frames in one animation loop.
pub const FRAME_COUNT: usize = 60;

/// Playback rate suggested for assembling the frames.
pub const FPS: u32 = 30;

/// A worker reports progress on every frame index that is a multiple of this.
pub const PROGRESS_EVERY: usize = 10;

/// Where a frame lies on the animation's span, as the fraction `num / den`
/// of the full duration.
#[derive(Clone, Copy, Debug, PartialEq, Eq, Structural)]
pub struct TimeFraction {
    pub num: usize,
    pub den: usize,
}

/// The time of frame `frame` out of `frame_count`, as a fraction
/// `(numerator, denominator)` of the duration.
pub open spec fn time_of(frame: nat, frame_count: nat) -> (nat, nat) {
    if frame_count > 1 {
        (frame, (frame_count - 1) as nat)
    } else {
        (0, 1)
    }
}

/// The time of frame `frame` out of `frame_count`: `frame / (frame_count - 1)`
/// of the duration, so the first frame is at 0 and the last at the full span;
/// with a single frame (or none) the time is 0.
pub fn time_fraction(frame: usize, frame_count: usize) -> (r: TimeFraction)
    ensures
        r.den >= 1,
        (r.num as nat, r.den as nat) == time_of(frame as nat, frame_count as nat),
{
    if frame_count > 1 {
        TimeFraction { num: frame, den: frame_count - 1 }
    } else {
        TimeFraction { num: 0, den: 1 }
    }
}

/// Whether the worker rendering `frame` reports its progress.
pub fn reports_progress(frame: usize) -> (r: bool)
    ensures
        r == (frame % PROGRESS_EVERY == 0),
{
    frame % PROGRESS_EVERY == 0
}

/// Bytes of a frame of side `size`: three channels per pixel.
pub open spec fn frame_len(size: nat) -> nat {
    size * size * 3
}

/// Offset of the red byte of pixel `(x, y)` in a row-major frame of side `size`.
pub open spec fn pixel_offset(size: nat, x: nat, y: nat) -> int {
    ((y * size + x) * 3) as int
}

/// Each pixel's three bytes lie inside the frame, and two distinct pixels
/// share none of them: in row-major order pixel `(x, y)` is the
/// `(y * size + x)`-th triple.
pub proof fn lemma_pixel_offsets_disjoint(size: nat, x1: nat, y1: nat, x2: nat, y2: nat)
    requires
        x1 < size,
        y1 < size,
        x2 < size,
        y2 < size,
        x1 != x2 || y1 != y2,
    ensures
        0 <= pixel_offset(size, x1, y1),
        pixel_offset(size, x1, y1) + 3 <= frame_len(size),
        pixel_offset(size, x1, y1) + 3 <= pixel_offset(size, x2, y2) || pixel_offset(
            size,
            x2,
            y2,
        ) + 3 <= pixel_offset(size, x1, y1),
{
    assert((y1 * size + x1) * 3 + 3 <= size * size * 3) by (nonlinear_arith)
        requires
            x1 < size,
            y1 < size,
    ;
    assert(y1 * size + x1 != y2 * size + x2) by (nonlinear_arith)
        requires
            x1 < size,
            x2 < size,
            x1 != x2 || y1 != y2,
    ;
}

/// A row-major, top-to-bottom, left-to-right buffer of R, G, B bytes for one
/// square frame.
pub struct FrameBuffer {
    size: usize,
    pixels: Vec<u8>,
}

impl FrameBuffer {
    /// Side length in pixels.
    pub closed spec fn spec_size(&self) -> nat {
        self.size as nat
    }

    /// The bytes of the buffer.
    pub closed spec fn view(&self) -> Seq<u8> {
        self.pixels@
    }

    /// The buffer holds exactly three bytes per pixel.
    pub closed spec fn wf(&self) -> bool {
        self.pixels@.len() == frame_len(self.size as nat)
    }

    /// A black frame of side `size`.
    pub fn new(size: usize) -> (r: FrameBuffer)
        requires
            frame_len(size as nat) <= usize::MAX,
        ensures
            r.wf(),
            r.spec_size() == size,
            r@ == Seq::new(frame_len(size as nat), |i: int| 0u8),
    {
        let n = size * size * 3;
        let mut pixels: Vec<u8> = Vec::new();
        let mut i: usize = 0;
        while i < n
            invariant
                i <= n,
                pixels@ == Seq::new(i as nat, |j: int| 0u8),
            decreases n - i,
        {
            pixels.push(0u8);
            i = i + 1;
        }
        assert(pixels@ =~= Seq::new(frame_len(size as nat), |j: int| 0u8));
        FrameBuffer { size, pixels }
    }

    /// Side length in pixels.
    pub fn size(&self) -> (r: usize)
        ensures
            r == self.spec_size(),
    {
        self.size
    }

    /// Number of bytes: `size * size * 3`, whatever has been written.
    pub fn len(&self) -> (r: usize)
        requires
            self.wf(),
        ensures
            r == frame_len(self.spec_size()),
            r == self@.len(),
    {
        self.pixels.len()
    }

    /// Writes the channels of pixel `(x, y)`; every other byte, the size and
    /// the length stay as they were.
    pub fn set_pixel(&mut self, x: usize, y: usize, r: u8, g: u8, b: u8)
        requires
            old(self).wf(),
            x < old(self).spec_size(),
            y < old(self).spec_size(),
        ensures
            final(self).wf(),
            final(self).spec_size() == old(self).spec_size(),
            final(self)@ == old(self)@.update(
                pixel_offset(old(self).spec_size(), x as nat, y as nat),
                r,
            ).update(pixel_offset(old(self).spec_size(), x as nat, y as nat) + 1, g).update(
                pixel_offset(old(self).spec_size(), x as nat, y as nat) + 2,
                b,
            ),
    {
        let ghost s = self.size as nat;
        // The buffer's length bounds every offset below, so none overflows.
        let len = self.pixels.len();
        proof {
            assert(y * s <= y * s + x < s * s && (y * s + x) * 3 + 2 < s * s * 3)
                by (nonlinear_arith)
                requires
                    x < s,
                    y < s,
            ;
        }
        assert((y * s + x) * 3 + 2 < len);
        let idx = (y * self.size + x) * 3;
        self.pixels.set(idx, r);
        self.pixels.set(idx + 1, g);
        self.pixels.set(idx + 2, b);
    }

    /// The bytes of the frame, in order.
    pub fn as_bytes(&self) -> (r: &Vec<u8>)
        ensures
            r@ == self@,
    {
        &self.pixels
    }
}

/// With a single frame the time is 0, whatever the frame index.
pub proof fn lemma_single_frame_time(frame: nat)
    ensures
        time_of(frame, 1).0 == 0,
{
}

} // verus!
