//! Running sums of the source pixels that one cell covers.

use vstd::prelude::*;

verus! {

/// What a [`Px`] has summed: each channel over the pixels added, and how many
/// pixels that was.
pub struct PxSums {
    pub r: int,
    pub g: int,
    pub b: int,
    pub count: int,
}

/// The largest of three.
pub open spec fn max3(a: int, b: int, c: int) -> int {
    if a >= b && a >= c {
        a
    } else if b >= c {
        b
    } else {
        c
    }
}

/// The smallest of three.
pub open spec fn min3(a: int, b: int, c: int) -> int {
    if a <= b && a <= c {
        a
    } else if b <= c {
        b
    } else {
        c
    }
}

/// The HSL lightness of the average color: the midpoint of its brightest and
/// darkest channel sums, divided by the pixel count. No pixels read as black.
pub open spec fn lightness_of(s: PxSums) -> int {
    if s.count == 0 {
        0
    } else {
        (max3(s.r, s.g, s.b) + min3(s.r, s.g, s.b)) / (2 * s.count)
    }
}

/// The average color as `[r, g, b]`, each channel rounded down. No pixels
/// read as black.
pub open spec fn average_of(s: PxSums) -> Seq<int> {
    if s.count == 0 {
        seq![0, 0, 0]
    } else {
        seq![s.r / s.count, s.g / s.count, s.b / s.count]
    }
}

/// Whether the lightness of `s` can be computed in `u32`: neither the sum of
/// the brightest and darkest channel nor twice the count overflows.
pub open spec fn lightness_fits(s: PxSums) -> bool {
    &&& max3(s.r, s.g, s.b) + min3(s.r, s.g, s.b) <= u32::MAX
    &&& 2 * s.count <= u32::MAX
}

/// The sums of `pixels` (each `(r, g, b)`) added one after another, from
/// nothing summed.
pub open spec fn sums_of(pixels: Seq<(u8, u8, u8)>) -> PxSums
    decreases pixels.len(),
{
    if pixels.len() == 0 {
        PxSums { r: 0, g: 0, b: 0, count: 0 }
    } else {
        let p = pixels.last();
        sums_plus(sums_of(pixels.drop_last()), p.0, p.1, p.2)
    }
}

/// Any one pixel can be taken out of a sum and added last.
proof fn lemma_sums_take_out(pixels: Seq<(u8, u8, u8)>, i: int)
    requires
        0 <= i < pixels.len(),
    ensures
        sums_of(pixels) == sums_plus(sums_of(pixels.remove(i)), pixels[i].0, pixels[i].1, pixels[i].2),
    decreases pixels.len(),
{
    if i < pixels.len() - 1 {
        let rest = pixels.drop_last();
        lemma_sums_take_out(rest, i);
        assert(pixels.remove(i).drop_last() == rest.remove(i));
        assert(pixels.remove(i).last() == pixels.last());
        assert(rest[i] == pixels[i]);
    } else {
        assert(pixels.remove(i) == pixels.drop_last());
    }
}

/// The order pixels are added in does not matter: the same pixels, in any
/// order, give the same sums, so the same average color and lightness, and
/// the lightness can be computed for both or for neither. This
/// holds for both running sums, [`Px::add`] and `px::Px::add_px`, which both
/// add as `sums_plus` does.
pub proof fn law_order_does_not_matter(a: Seq<(u8, u8, u8)>, b: Seq<(u8, u8, u8)>)
    requires
        a.to_multiset() == b.to_multiset(),
    ensures
        sums_of(a) == sums_of(b),
        average_of(sums_of(a)) == average_of(sums_of(b)),
        lightness_of(sums_of(a)) == lightness_of(sums_of(b)),
        lightness_fits(sums_of(a)) == lightness_fits(sums_of(b)),
    decreases a.len(),
{
    broadcast use vstd::seq_lib::group_to_multiset_ensures;

    vstd::seq_lib::to_multiset_len(a);
    vstd::seq_lib::to_multiset_len(b);
    if a.len() > 0 {
        let x = a.last();
        let last = a.len() - 1;
        assert(a[last] == x);
        vstd::seq_lib::to_multiset_contains(a, x);
        vstd::seq_lib::to_multiset_contains(b, x);
        assert(a.contains(x));
        let j = choose|j: int| 0 <= j < b.len() && b[j] == x;
        vstd::seq_lib::to_multiset_remove(a, last);
        vstd::seq_lib::to_multiset_remove(b, j);
        assert(a.remove(last) == a.drop_last());
        law_order_does_not_matter(a.drop_last(), b.remove(j));
        lemma_sums_take_out(b, j);
    } else {
        assert(b.len() == 0);
        assert(a == b);
    }
}

/// `k` copies of the pixel `(r, g, b)`.
pub open spec fn uniform_pixels(r: u8, g: u8, b: u8, k: nat) -> Seq<(u8, u8, u8)> {
    Seq::new(k, |i: int| (r, g, b))
}

/// `k` copies of one pixel sum to `k` times each channel.
proof fn lemma_uniform_sums(r: u8, g: u8, b: u8, k: nat)
    ensures
        sums_of(uniform_pixels(r, g, b, k)) == (PxSums { r: k * r, g: k * g, b: k * b, count: k as int }),
    decreases k,
{
    if k > 0 {
        lemma_uniform_sums(r, g, b, (k - 1) as nat);
        assert(uniform_pixels(r, g, b, k).drop_last() == uniform_pixels(r, g, b, (k - 1) as nat));
        assert(uniform_pixels(r, g, b, k).last() == (r, g, b));
        assert((k - 1) * r + r == k * r) by (nonlinear_arith) requires k >= 1;
        assert((k - 1) * g + g == k * g) by (nonlinear_arith) requires k >= 1;
        assert((k - 1) * b + b == k * b) by (nonlinear_arith) requires k >= 1;
    } else {
        assert(k * r == 0 && k * g == 0 && k * b == 0) by (nonlinear_arith) requires k == 0;
    }
}

/// `k` times a value over `2 * k` is half the value, rounded down.
proof fn lemma_scaled_half(x: int, k: int)
    requires
        x >= 0,
        k >= 1,
    ensures
        (k * x) / (2 * k) == x / 2,
{
    let q = x / 2;
    let m = x % 2;
    assert(k * x == q * (2 * k) + k * m) by (nonlinear_arith)
        requires x == 2 * q + m;
    assert(0 <= k * m < 2 * k) by (nonlinear_arith)
        requires 0 <= m < 2, k >= 1;
    vstd::arithmetic::div_mod::lemma_fundamental_div_mod_converse(k * x, 2 * k, q, k * m);
}

/// A region of one color reads as that color, however many pixels it has:
/// adding the same pixel `k >= 1` times, as [`Px::add`] does, gives that
/// pixel as the average and the midpoint of its brightest and darkest
/// channel as the lightness.
pub proof fn law_uniform_region_keeps_its_color(r: u8, g: u8, b: u8, k: nat)
    requires
        k >= 1,
    ensures
        sums_of(uniform_pixels(r, g, b, k)) == (PxSums { r: k * r, g: k * g, b: k * b, count: k as int }),
        average_of(sums_of(uniform_pixels(r, g, b, k))) == seq![r as int, g as int, b as int],
        lightness_of(sums_of(uniform_pixels(r, g, b, k))) == (max3(r as int, g as int, b as int) + min3(
            r as int,
            g as int,
            b as int,
        )) / 2,
{
    lemma_uniform_sums(r, g, b, k);
    let ki = k as int;
    vstd::arithmetic::div_mod::lemma_div_multiples_vanish(r as int, ki);
    vstd::arithmetic::div_mod::lemma_div_multiples_vanish(g as int, ki);
    vstd::arithmetic::div_mod::lemma_div_multiples_vanish(b as int, ki);
    assert(ki * r == k * r && ki * g == k * g && ki * b == k * b);
    let hi = max3(r as int, g as int, b as int);
    let lo = min3(r as int, g as int, b as int);
    assert(k * r >= k * g <==> r >= g) by (nonlinear_arith) requires k >= 1;
    assert(k * r >= k * b <==> r >= b) by (nonlinear_arith) requires k >= 1;
    assert(k * g >= k * b <==> g >= b) by (nonlinear_arith) requires k >= 1;
    assert(k * r <= k * g <==> r <= g) by (nonlinear_arith) requires k >= 1;
    assert(k * r <= k * b <==> r <= b) by (nonlinear_arith) requires k >= 1;
    assert(k * g <= k * b <==> g <= b) by (nonlinear_arith) requires k >= 1;
    assert(max3(k * r, k * g, k * b) == ki * hi);
    assert(min3(k * r, k * g, k * b) == ki * lo);
    assert(ki * hi + ki * lo == ki * (hi + lo)) by (nonlinear_arith);
    lemma_scaled_half(hi + lo, ki);
    assert(average_of(sums_of(uniform_pixels(r, g, b, k))) =~= seq![r as int, g as int, b as int]);
}

/// Running sum of the source pixels covered by one cell.
#[derive(Clone, Copy)]
pub struct Px {
    r_sum: u32,
    g_sum: u32,
    b_sum: u32,
    px_sum: u32,
}

impl View for Px {
    type V = PxSums;

    closed spec fn view(&self) -> PxSums {
        PxSums { r: self.r_sum as int, g: self.g_sum as int, b: self.b_sum as int, count: self.px_sum as int }
    }
}

/// The sums that `s` becomes when one more pixel is added.
pub open spec fn sums_plus(s: PxSums, r: u8, g: u8, b: u8) -> PxSums {
    PxSums { r: s.r + r, g: s.g + g, b: s.b + b, count: s.count + 1 }
}

impl Px {
    /// Every channel sum is at most 255 per pixel added.
    #[verifier::type_invariant]
    spec fn sums_of_bytes(self) -> bool {
        &&& self.r_sum <= 255 * self.px_sum
        &&& self.g_sum <= 255 * self.px_sum
        &&& self.b_sum <= 255 * self.px_sum
    }

    /// Nothing summed yet.
    pub fn new() -> (px: Px)
        ensures
            px@ == (PxSums { r: 0, g: 0, b: 0, count: 0 }),
    {
        Px { r_sum: 0, g_sum: 0, b_sum: 0, px_sum: 0 }
    }

    /// Adds one pixel.
    pub fn add(&mut self, r: u8, g: u8, b: u8)
        requires
            old(self)@.r + r <= u32::MAX,
            old(self)@.g + g <= u32::MAX,
            old(self)@.b + b <= u32::MAX,
            old(self)@.count + 1 <= u32::MAX,
        ensures
            final(self)@ == sums_plus(old(self)@, r, g, b),
    {
        proof {
            use_type_invariant(&*self);
        }
        let r_sum = self.r_sum + r as u32;
        let g_sum = self.g_sum + g as u32;
        let b_sum = self.b_sum + b as u32;
        let px_sum = self.px_sum + 1;
        *self = Px { r_sum, g_sum, b_sum, px_sum };
    }

    /// HSL lightness of the average color: the midpoint of its brightest and
    /// darkest channel.
    pub fn lightness(&self) -> (l: u8)
        requires
            self@.count == 0 || lightness_fits(self@),
        ensures
            l == lightness_of(self@),
    {
        proof {
            use_type_invariant(self);
        }
        if self.px_sum == 0 {
            return 0;
        }
        let max = if self.r_sum >= self.g_sum && self.r_sum >= self.b_sum {
            self.r_sum
        } else if self.g_sum >= self.b_sum {
            self.g_sum
        } else {
            self.b_sum
        };
        let min = if self.r_sum <= self.g_sum && self.r_sum <= self.b_sum {
            self.r_sum
        } else if self.g_sum <= self.b_sum {
            self.g_sum
        } else {
            self.b_sum
        };
        let n = self.px_sum;
        proof {
            assert((max + min) / (2 * n as int) <= 255) by (nonlinear_arith)
                requires max <= 255 * n, min <= 255 * n, n > 0;
        }
        ((max + min) / (n * 2)) as u8
    }

    /// The average color of the cell, as `[r, g, b]`.
    pub fn average(&self) -> (rgb: [u8; 3])
        ensures
            rgb@ == average_of(self@).map_values(|v: int| v as u8),
            forall|i: int| 0 <= i < 3 ==> 0 <= #[trigger] average_of(self@)[i] <= 255,
    {
        proof {
            use_type_invariant(self);
        }
        if self.px_sum == 0 {
            let rgb = [0u8; 3];
            assert(rgb@ == average_of(self@).map_values(|v: int| v as u8));
            return rgb;
        }
        let n = self.px_sum;
        proof {
            assert(self.r_sum / n <= 255) by (nonlinear_arith)
                requires self.r_sum <= 255 * n, n > 0;
            assert(self.g_sum / n <= 255) by (nonlinear_arith)
                requires self.g_sum <= 255 * n, n > 0;
            assert(self.b_sum / n <= 255) by (nonlinear_arith)
                requires self.b_sum <= 255 * n, n > 0;
        }
        let rgb = [(self.r_sum / n) as u8, (self.g_sum / n) as u8, (self.b_sum / n) as u8];
        assert(rgb@ == average_of(self@).map_values(|v: int| v as u8));
        rgb
    }
}

} // verus!
