//! The first form of the per-cell running sum: channel sums and a pixel
//! count, read back one channel at a time.

use vstd::prelude::*;

use crate::extract::px::{PxSums, lightness_fits, max3, min3, sums_plus};

verus! {

/// Running sum of the pixels of one cell.
pub struct Px {
    r_sum: u32,
    g_sum: u32,
    b_sum: u32,
    px_sum: u32,
}

impl View for Px {
    type V = PxSums;

    closed spec fn view(&self) -> PxSums {
        PxSums { r: self.r_sum as int, g: self.g_sum as int, b: self.b_sum as int, count: self.px_sum as int }
    }
}

impl Px {
    /// Every channel sum is at most 255 per pixel added.
    #[verifier::type_invariant]
    spec fn sums_of_bytes(self) -> bool {
        &&& self.r_sum <= 255 * self.px_sum
        &&& self.g_sum <= 255 * self.px_sum
        &&& self.b_sum <= 255 * self.px_sum
    }

    /// Nothing summed yet.
    pub fn new() -> (px: Px)
        ensures
            px@ == (PxSums { r: 0, g: 0, b: 0, count: 0 }),
    {
        Px { r_sum: 0, g_sum: 0, b_sum: 0, px_sum: 0 }
    }

    /// Adds one pixel. The order pixels are added in does not change the
    /// sums: see `extract::px::law_order_does_not_matter`.
    pub fn add_px(&mut self, r: u8, g: u8, b: u8)
        requires
            old(self)@.r + r <= u32::MAX,
            old(self)@.g + g <= u32::MAX,
            old(self)@.b + b <= u32::MAX,
            old(self)@.count + 1 <= u32::MAX,
        ensures
            final(self)@ == sums_plus(old(self)@, r, g, b),
    {
        proof {
            use_type_invariant(&*self);
        }
        let r_sum = self.r_sum + r as u32;
        let g_sum = self.g_sum + g as u32;
        let b_sum = self.b_sum + b as u32;
        let px_sum = self.px_sum + 1;
        *self = Px { r_sum, g_sum, b_sum, px_sum };
    }

    /// The midpoint of the brightest and darkest channel sums, divided by the
    /// pixel count. At least one pixel must have been added.
    pub fn get_ligthness(&self) -> (l: u8)
        requires
            self@.count > 0,
            lightness_fits(self@),
        ensures
            l == (max3(self@.r, self@.g, self@.b) + min3(self@.r, self@.g, self@.b)) / (2 * self@.count),
    {
        proof {
            use_type_invariant(self);
        }
        let mut max = self.r_sum;
        let mut min = self.r_sum;
        if self.g_sum > max {
            max = self.g_sum;
        }
        if self.g_sum < min {
            min = self.g_sum;
        }
        if self.b_sum > max {
            max = self.b_sum;
        }
        if self.b_sum < min {
            min = self.b_sum;
        }
        let n = self.px_sum;
        proof {
            assert((max + min) / (2 * n as int) <= 255) by (nonlinear_arith)
                requires max <= 255 * n, min <= 255 * n, n > 0;
        }
        ((max + min) / (n * 2)) as u8
    }

    /// The average red channel. At least one pixel must have been added.
    pub fn avg_r(&self) -> (r: u8)
        requires
            self@.count > 0,
        ensures
            r == self@.r / self@.count,
    {
        proof {
            use_type_invariant(self);
            assert(self.r_sum / self.px_sum <= 255) by (nonlinear_arith)
                requires self.r_sum <= 255 * self.px_sum, self.px_sum > 0;
        }
        (self.r_sum / self.px_sum) as u8
    }

    /// The average green channel. At least one pixel must have been added.
    pub fn avg_g(&self) -> (g: u8)
        requires
            self@.count > 0,
        ensures
            g == self@.g / self@.count,
    {
        proof {
            use_type_invariant(self);
            assert(self.g_sum / self.px_sum <= 255) by (nonlinear_arith)
                requires self.g_sum <= 255 * self.px_sum, self.px_sum > 0;
        }
        (self.g_sum / self.px_sum) as u8
    }

    /// The average blue channel. At least one pixel must have been added.
    pub fn avg_b(&self) -> (b: u8)
        requires
            self@.count > 0,
        ensures
            b == self@.b / self@.count,
    {
        proof {
            use_type_invariant(self);
            assert(self.b_sum / self.px_sum <= 255) by (nonlinear_arith)
                requires self.b_sum <= 255 * self.px_sum, self.px_sum > 0;
        }
        (self.b_sum / self.px_sum) as u8
    }
}

} // verus!
