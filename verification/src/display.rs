//! Display controller for a 10-digit, 80-segment LED matrix driven through
//! a binary shift register. Brightness is faked by temporal dithering: each
//! segment stores an 8-bit brightness, and every render cycle the segment is
//! lit exactly when its brightness exceeds a rolling threshold that advances
//! by a fixed step and wraps.

use vstd::prelude::*;

verus! {

/// Number of per-segment brightness cells: 10 digit positions of 8 segment
/// bits each.
pub const CANVAS_SEGMENTS: usize = 80;

/// Width of one shifted-out frame in bytes.
pub const FRAME_BYTES: usize = 10;

/// Amount the dither threshold advances on every render cycle.
pub const DITHER_STEP: u8 = 4;

pub struct DisplayController {
    /// Rolling dither threshold: a segment is lit this frame exactly when
    /// its stored brightness exceeds this value.
    pub luma: u8,
    /// Per-segment brightness, one byte per segment.
    pub canvas: Vec<u8>,
}

impl DisplayController {
    /// The canvas always holds exactly one byte per segment.
    pub open spec fn wf(self) -> bool {
        self.canvas@.len() == CANVAS_SEGMENTS
    }

    /// A blank controller: threshold at zero, every segment dark.
    pub fn new() -> (d: DisplayController)
        ensures
            d.wf(),
            d.luma == 0,
            forall|i: int| 0 <= i < CANVAS_SEGMENTS ==> d.canvas@[i] == 0,
    {
        let mut canvas: Vec<u8> = Vec::new();
        let mut i: usize = 0;
        while i < CANVAS_SEGMENTS
            invariant
                i <= CANVAS_SEGMENTS,
                canvas@.len() == i,
                forall|k: int| 0 <= k < i ==> canvas@[k] == 0,
            decreases CANVAS_SEGMENTS - i,
        {
            canvas.push(0);
            i += 1;
        }
        DisplayController { luma: 0, canvas }
    }

    /// Overwrite one segment's brightness.
    pub fn update_segment(&mut self, idx: usize, luma: u8)
        requires
            old(self).wf(),
            idx < CANVAS_SEGMENTS,
        ensures
            final(self).wf(),
            final(self).luma == old(self).luma,
            final(self).canvas@ == old(self).canvas@.update(idx as int, luma),
    {
        self.canvas.set(idx, luma);
    }

    /// Write the 8 segment brightness cells of digit position `pos` from a
    /// segment bitmask: a set bit receives `luma`, a clear bit goes dark.
    pub fn print(&mut self, pos: usize, symbol: u8, luma: u8)
        requires
            old(self).wf(),
            pos < FRAME_BYTES,
        ensures
            final(self).wf(),
            final(self).luma == old(self).luma,
            forall|i: int|
                pos * 8 <= i < pos * 8 + 8 ==> final(self).canvas@[i] == spec_print_luma(
                    symbol,
                    pos * 8 + 7 - i,
                    luma,
                ),
            forall|i: int|
                0 <= i < CANVAS_SEGMENTS && !(pos * 8 <= i < pos * 8 + 8)
                    ==> final(self).canvas@[i] == old(self).canvas@[i],
    {
        let mut offset: usize = 0;
        while offset < 8
            invariant
                self.wf(),
                pos < FRAME_BYTES,
                offset <= 8,
                self.luma == old(self).luma,
                forall|i: int|
                    pos * 8 + 8 - offset <= i < pos * 8 + 8 ==> self.canvas@[i] == spec_print_luma(
                        symbol,
                        pos * 8 + 7 - i,
                        luma,
                    ),
                forall|i: int|
                    0 <= i < CANVAS_SEGMENTS && !(pos * 8 + 8 - offset <= i < pos * 8 + 8)
                        ==> self.canvas@[i] == old(self).canvas@[i],
            decreases 8 - offset,
        {
            let l = if (symbol >> (offset as u8)) & 1 == 1 {
                luma
            } else {
                0
            };
            let idx = pos * 8 + 7 - offset;
            self.canvas.set(idx, l);
            offset += 1;
        }
    }

    /// Fold the canvas into one binary frame: bit `7 - i % 8` of frame byte
    /// `i / 8` is set exactly when segment `i` outshines the threshold.
    /// Then advance the threshold by the dither step, wrapping around.
    pub fn render(&mut self) -> (frame: Vec<u8>)
        requires
            old(self).wf(),
        ensures
            final(self).wf(),
            final(self).canvas@ == old(self).canvas@,
            final(self).luma == old(self).luma.wrapping_add(DITHER_STEP),
            frame@.len() == FRAME_BYTES,
            forall|g: int|
                0 <= g < FRAME_BYTES ==> frame@[g] == spec_group_byte(
                    old(self).canvas@,
                    old(self).luma,
                    g,
                ),
    {
        let mut frame: Vec<u8> = Vec::new();
        let mut g: usize = 0;
        while g < FRAME_BYTES
            invariant
                self.wf(),
                self.canvas@ == old(self).canvas@,
                self.luma == old(self).luma,
                g <= FRAME_BYTES,
                frame@.len() == g,
                forall|k: int| 0 <= k < g ==> frame@[k] == spec_group_byte(
                    self.canvas@,
                    self.luma,
                    k,
                ),
            decreases FRAME_BYTES - g,
        {
            let base = g * 8;
            let b0: u8 = if self.canvas[base] > self.luma { 1 } else { 0 };
            let b1: u8 = if self.canvas[base + 1] > self.luma { 1 } else { 0 };
            let b2: u8 = if self.canvas[base + 2] > self.luma { 1 } else { 0 };
            let b3: u8 = if self.canvas[base + 3] > self.luma { 1 } else { 0 };
            let b4: u8 = if self.canvas[base + 4] > self.luma { 1 } else { 0 };
            let b5: u8 = if self.canvas[base + 5] > self.luma { 1 } else { 0 };
            let b6: u8 = if self.canvas[base + 6] > self.luma { 1 } else { 0 };
            let b7: u8 = if self.canvas[base + 7] > self.luma { 1 } else { 0 };
            let byte = 128 * b0 + 64 * b1 + 32 * b2 + 16 * b3 + 8 * b4 + 4 * b5 + 2 * b6 + b7;
            frame.push(byte);
            g += 1;
        }
        self.luma = self.luma.wrapping_add(DITHER_STEP);
        frame
    }
}

/// Whether segment `i` of the canvas is lit at the given dither threshold.
pub open spec fn spec_lit(canvas: Seq<u8>, threshold: u8, i: int) -> bool {
    canvas[i] > threshold
}

/// The frame bit for segment `i`, as 0 or 1.
pub open spec fn spec_bit(canvas: Seq<u8>, threshold: u8, i: int) -> u8 {
    if spec_lit(canvas, threshold, i) {
        1
    } else {
        0
    }
}

/// Frame byte for digit group `g`: the 8 segment bits of the group, most
/// significant bit first.
pub open spec fn spec_group_byte(canvas: Seq<u8>, threshold: u8, g: int) -> u8 {
    (128 * spec_bit(canvas, threshold, 8 * g) + 64 * spec_bit(canvas, threshold, 8 * g + 1) + 32
        * spec_bit(canvas, threshold, 8 * g + 2) + 16 * spec_bit(canvas, threshold, 8 * g + 3) + 8
        * spec_bit(canvas, threshold, 8 * g + 4) + 4 * spec_bit(canvas, threshold, 8 * g + 5) + 2
        * spec_bit(canvas, threshold, 8 * g + 6) + spec_bit(canvas, threshold, 8 * g + 7)) as u8
}

/// In a rendered frame, bit `7 - j` (counting from the least significant
/// end) of group `g`'s byte is 1 exactly when segment `8 g + j` has
/// brightness strictly above the threshold, and 0 otherwise.
pub proof fn lemma_group_byte_bit(canvas: Seq<u8>, threshold: u8, g: int, j: int)
    requires
        0 <= j < 8,
    ensures
        (spec_group_byte(canvas, threshold, g) >> ((7 - j) as u8)) & 1 == spec_bit(
            canvas,
            threshold,
            8 * g + j,
        ),
{
    let b0 = spec_bit(canvas, threshold, 8 * g);
    let b1 = spec_bit(canvas, threshold, 8 * g + 1);
    let b2 = spec_bit(canvas, threshold, 8 * g + 2);
    let b3 = spec_bit(canvas, threshold, 8 * g + 3);
    let b4 = spec_bit(canvas, threshold, 8 * g + 4);
    let b5 = spec_bit(canvas, threshold, 8 * g + 5);
    let b6 = spec_bit(canvas, threshold, 8 * g + 6);
    let b7 = spec_bit(canvas, threshold, 8 * g + 7);
    let k: u8 = (7 - j) as u8;
    assert(spec_group_byte(canvas, threshold, g) == (128 * b0 + 64 * b1 + 32 * b2 + 16 * b3 + 8
        * b4 + 4 * b5 + 2 * b6 + b7) as u8);
    assert(((128 * b0 + 64 * b1 + 32 * b2 + 16 * b3 + 8 * b4 + 4 * b5 + 2 * b6 + b7) as u8 >> k)
        & 1 == (if k == 0 {
        b7
    } else if k == 1 {
        b6
    } else if k == 2 {
        b5
    } else if k == 3 {
        b4
    } else if k == 4 {
        b3
    } else if k == 5 {
        b2
    } else if k == 6 {
        b1
    } else {
        b0
    })) by (bit_vector)
        requires
            b0 <= 1 && b1 <= 1 && b2 <= 1 && b3 <= 1 && b4 <= 1 && b5 <= 1 && b6 <= 1 && b7 <= 1
                && k < 8,
    ;
}

/// Brightness that `print` stores for bit `off` of a segment bitmask.
pub open spec fn spec_print_luma(symbol: u8, off: int, luma: u8) -> u8 {
    if (symbol >> (off as u8)) & 1 == 1 {
        luma
    } else {
        0
    }
}

} // verus!
