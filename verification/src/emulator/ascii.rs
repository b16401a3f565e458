//! The display buffer: 32 rows by 64 columns of boolean pixel state, mutated
//! only by XOR plotting during a draw instruction or cleared wholesale.
//! Presenting the grid on a concrete output device is the host's concern.

use vstd::prelude::*;

verus! {

pub const HEIGHT: usize = 32;

pub const WIDTH: usize = 64;

/// Row-major backing store of the grid.
pub struct Display {
    pub buffer: Vec<bool>,
}

/// Whether bit `j` (0 is the most significant) of a sprite row byte is set.
pub open spec fn bit_at(b: u8, j: int) -> bool {
    (b >> ((7 - j) as u8)) & 1 == 1
}

/// Whether a sprite of `n` rows, sourced from `mem` starting at `ip`, with
/// origin column `vx` and row `vy`, covers cell (`r`, `c`) with a set bit.
/// Rows beyond `n` and columns past the right edge are clipped, not wrapped.
pub open spec fn covers(mem: Seq<u8>, ip: int, vx: int, vy: int, n: int, r: int, c: int) -> bool {
    &&& vy <= r < vy + n
    &&& vx <= c < vx + 8
    &&& c < WIDTH
    &&& bit_at(mem[ip + (r - vy)], c - vx)
}

impl Display {
    /// The backing store holds exactly one boolean per grid cell.
    pub open spec fn wf(self) -> bool {
        self.buffer.len() == HEIGHT * WIDTH
    }

    /// The pixel at row `r`, column `c`.
    pub open spec fn pixel(self, r: int, c: int) -> bool {
        self.buffer@[r * (WIDTH as int) + c]
    }

    /// XOR-plots one sprite bit: flips the pixel if the incoming bit is set,
    /// and reports whether a previously set pixel became unset (the collision
    /// signal aggregated over a whole sprite draw).
    pub fn xor(&mut self, val: bool, h: usize, w: usize) -> (r: bool)
        requires
            old(self).wf(),
            h < HEIGHT,
            w < WIDTH,
        ensures
            final(self).wf(),
            r == (val && old(self).pixel(h as int, w as int)),
            final(self).pixel(h as int, w as int) == (old(self).pixel(h as int, w as int)
                != val),
            forall|k: int|
                0 <= k < HEIGHT * WIDTH && k != h * (WIDTH as int) + w
                    ==> final(self).buffer@[k] == old(self).buffer@[k],
    {
        if val {
            let prev_val = self.buffer[h * WIDTH + w];
            self.buffer[h * WIDTH + w] = !prev_val;
            return prev_val;
        }
        return false;
    }

    /// Unsets every pixel of the grid.
    pub fn clear(&mut self)
        ensures
            final(self).wf(),
            forall|k: int| 0 <= k < HEIGHT * WIDTH ==> !final(self).buffer@[k],
    {
        self.buffer = vec![false; HEIGHT * WIDTH];
    }

    /// Reads one pixel.
    pub fn get(&self, h: usize, w: usize) -> (r: bool)
        requires
            self.wf(),
            h < HEIGHT,
            w < WIDTH,
        ensures
            r == self.pixel(h as int, w as int),
    {
        return self.buffer[h * WIDTH + w];
    }
}

/// A cleared grid.
pub fn create_display() -> (r: Display)
    ensures
        r.wf(),
        forall|k: int| 0 <= k < HEIGHT * WIDTH ==> !r.buffer@[k],
{
    return Display { buffer: vec![false; HEIGHT * WIDTH] };
}

} // verus!
