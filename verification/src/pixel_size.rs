//! The progressive block-size sequence: starting from a user-supplied size,
//! each step emits `pixel_size * scale` and then doubles or triples the scale
//! according to the parity of the emitted value; the sequence ends as soon as
//! the computed size exceeds the image width.

use vstd::prelude::*;

verus! {

/// State of the block-size sequence. A fresh state has `scale == 1`; each
/// emitted value multiplies `scale` by 2 (value even) or 3 (value odd).
/// Forward-only and not restartable: once a pull returns `None`, every later
/// pull does too.
pub struct PixelSize {
    pub pixel_size: u32,
    pub width: u32,
    pub scale: u64,
}

impl PixelSize {
    /// The state never outruns its bounds: the scale only grows while the
    /// current size is at most the width, so the next product stays within
    /// three times the width (or is the very first, with `scale == 1`).
    pub open spec fn wf(self) -> bool {
        &&& self.pixel_size >= 1
        &&& self.scale >= 1
        &&& (self.scale == 1 || (self.pixel_size as int) * (self.scale as int) <= 3 * (
        self.width as int))
    }

    /// The size the next pull will consider emitting.
    pub open spec fn current(self) -> int {
        (self.pixel_size as int) * (self.scale as int)
    }

    pub fn new(pixel_size: u32, width: u32) -> (s: Self)
        requires
            pixel_size >= 1,
        ensures
            s.pixel_size == pixel_size,
            s.width == width,
            s.scale == 1,
            s.wf(),
    {
        PixelSize { pixel_size, width, scale: 1 }
    }

    /// Pulls the next block size: `None` once `pixel_size * scale` exceeds
    /// the width (the sequence has ended), otherwise that product, with the
    /// scale advanced by the parity rule.
    pub fn next(&mut self) -> (r: Option<u32>)
        requires
            old(self).wf(),
        ensures
            final(self).wf(),
            final(self).pixel_size == old(self).pixel_size,
            final(self).width == old(self).width,
            old(self).current() > old(self).width as int ==> {
                &&& r is None
                &&& final(self).scale == old(self).scale
            },
            old(self).current() <= old(self).width as int ==> {
                &&& r == Some(old(self).current() as u32)
                &&& final(self).scale == old(self).scale * (
                if old(self).current() % 2 == 0 {
                    2int
                } else {
                    3int
                })
            },
    {
        proof {
            let ps = old(self).pixel_size as int;
            let sc = old(self).scale as int;
            let w = old(self).width as int;
            assert(ps * sc <= 3 * w + ps) by (nonlinear_arith)
                requires
                    ps >= 1,
                    sc >= 1,
                    w >= 0,
                    sc == 1 || ps * sc <= 3 * w,
            ;
        }
        let cur64: u64 = (self.pixel_size as u64) * self.scale;
        if cur64 > self.width as u64 {
            None
        } else {
            let cur: u32 = cur64 as u32;
            let m: u64 = if cur % 2 == 0 {
                2
            } else {
                3
            };
            proof {
                let ps = old(self).pixel_size as int;
                let sc = old(self).scale as int;
                let w = old(self).width as int;
                let mi = m as int;
                let c = cur64 as int;
                assert(sc * mi >= 1 && sc * mi <= 3 * w && ps * (sc * mi) <= 3 * w)
                    by (nonlinear_arith)
                    requires
                        ps >= 1,
                        sc >= 1,
                        1 <= mi <= 3,
                        c == ps * sc,
                        c <= w,
                ;
            }
            self.scale = self.scale * m;
            Some(cur)
        }
    }
}

} // verus!
