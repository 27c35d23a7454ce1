use vstd::prelude::*;

use crate::cbits::{cadd, cmul, cnorm, cx_add, cx_mul, cx_norm, fdiff, fl_div, fl_mul, fl_sub,
    fprod, fquot, int_repr, repr, ComplexBits};
use crate::raster::{Pixel, Raster};
use vstd::arithmetic::div_mod::{lemma_div_is_ordered, lemma_fundamental_div_mod_converse};

verus! {

/// The most iterations a pixel is given before it is called bounded.
pub const MAX_ITERATIONS: u8 = 255;

/// Bit pattern of the real component of the fixed parameter `c`,
/// minus two fifths.
pub const PARAM_RE_BITS: u32 = 0xBECC_CCCD;

/// Bit pattern of the imaginary component of the fixed parameter `c`,
/// three fifths.
pub const PARAM_IM_BITS: u32 = 0x3F19_999A;

/// Bit pattern of the escape bound on the magnitude, two.
pub const ESCAPE_BOUND_BITS: u32 = 0x4000_0000;

/// Bit pattern of the width of the mapped region of the plane, three.
pub const REGION_SPAN_BITS: u32 = 0x4040_0000;

/// Bit pattern of the mapping offset, three halves.
pub const REGION_OFFSET_BITS: u32 = 0x3FC0_0000;

/// The fixed parameter `c` of the recurrence.
pub open spec fn param_c() -> ComplexBits {
    ComplexBits { re: PARAM_RE_BITS, im: PARAM_IM_BITS }
}

/// One step of the escape-time recurrence: the square of `z`, plus `c`,
/// each operation rounded as in single precision.
pub open spec fn z_next(z: ComplexBits, c: ComplexBits) -> ComplexBits {
    cadd(cmul(z, z), c)
}

/// Whether `z` is still within the escape bound. Its magnitude is never
/// negative, so the unsigned order of the bit patterns is the order of
/// the magnitudes, and a non-numeric magnitude counts as escaped, just
/// as it stops the iteration when compared as a number.
pub open spec fn stays_bounded(z: ComplexBits) -> bool {
    cnorm(z) <= ESCAPE_BOUND_BITS
}

/// How many steps of the recurrence run from `z` before the value
/// escapes, the given fuel at most: the step count of a loop that stops
/// on the first escaped value or when the fuel is spent.
pub open spec fn escape_count(z: ComplexBits, c: ComplexBits, fuel: nat) -> nat
    decreases fuel,
{
    if fuel == 0 {
        0
    } else if !stays_bounded(z) {
        0
    } else {
        1 + escape_count(z_next(z, c), c, (fuel - 1) as nat)
    }
}

/// The value of `z` after `k` steps of the recurrence.
pub open spec fn z_iterate(z: ComplexBits, c: ComplexBits, k: nat) -> ComplexBits
    decreases k,
{
    if k == 0 {
        z
    } else {
        z_next(z_iterate(z, c, (k - 1) as nat), c)
    }
}

/// The scale of a grid axis: the region span divided by the axis length,
/// in single precision.
pub open spec fn axis_scale(len: u32) -> u32 {
    fquot(REGION_SPAN_BITS, repr(len))
}

/// The offset of a grid coordinate on an axis: the coordinate times the
/// axis scale, shifted down by the region offset, in single precision.
pub open spec fn axis_offset(coord: u32, len: u32) -> u32 {
    fdiff(fprod(repr(coord), axis_scale(len)), REGION_OFFSET_BITS)
}

/// The seed value of the pixel of column `x` and row `y`: the real
/// component runs along rows with the width's scale and the imaginary
/// component along columns with the height's scale, a deliberate
/// transposition of the grid axes.
pub open spec fn seed_value(x: u32, y: u32, width: u32, height: u32) -> ComplexBits {
    ComplexBits { re: axis_offset(y, width), im: axis_offset(x, height) }
}

/// The background ramp: three tenths of the coordinate, truncated to an
/// integer and saturated to the 8-bit range.
pub open spec fn ramp(coord: nat) -> u8 {
    if 3 * coord / 10 >= 255 {
        255u8
    } else {
        (3 * coord / 10) as u8
    }
}

/// The green channel of the pixel of column `x` and row `y`.
pub open spec fn green_value(x: u32, y: u32, width: u32, height: u32) -> u8 {
    escape_count(seed_value(x, y, width, height), param_c(), MAX_ITERATIONS as nat) as u8
}

/// The pixel of column `x` and row `y`: ramps of the coordinates on red
/// and blue, the escape count on green, full opacity on alpha.
pub open spec fn pixel_value(x: u32, y: u32, width: u32, height: u32) -> Pixel {
    Pixel {
        red: ramp(x as nat),
        green: green_value(x, y, width, height),
        blue: ramp(y as nat),
        alpha: 255,
    }
}

/// The whole synthesized raster of the given dimensions, row-major.
pub open spec fn synthesized(width: u32, height: u32) -> Seq<Pixel> {
    Seq::new(
        (width as nat) * (height as nat),
        |i: int| pixel_value(
            (i % (width as int)) as u32,
            (i / (width as int)) as u32,
            width,
            height,
        ),
    )
}

/// The background ramp of one coordinate.
pub fn background_ramp(coord: u32) -> (r: u8)
    ensures
        r == ramp(coord as nat),
{
    let scaled: u64 = 3 * (coord as u64) / 10;
    if scaled >= 255 {
        255
    } else {
        scaled as u8
    }
}

/// The seed value of one pixel, computed in single precision behind the
/// trusted operations of `cbits`.
pub fn seed_at(x: u32, y: u32, width: u32, height: u32) -> (s: ComplexBits)
    ensures
        s == seed_value(x, y, width, height),
{
    let scale_x = fl_div(REGION_SPAN_BITS, int_repr(width));
    let scale_y = fl_div(REGION_SPAN_BITS, int_repr(height));
    let re = fl_sub(fl_mul(int_repr(y), scale_x), REGION_OFFSET_BITS);
    let im = fl_sub(fl_mul(int_repr(x), scale_y), REGION_OFFSET_BITS);
    ComplexBits { re, im }
}

/// Runs the escape-time recurrence from `z` with parameter `c` and
/// returns the number of steps taken before the value escaped, the
/// iteration cap at most.
pub fn escape_green(z: ComplexBits, c: ComplexBits) -> (g: u8)
    ensures
        g == escape_count(z, c, MAX_ITERATIONS as nat),
{
    let mut cur = z;
    let mut g: u8 = 0;
    loop
        invariant
            g <= MAX_ITERATIONS,
            escape_count(z, c, MAX_ITERATIONS as nat)
                == g + escape_count(cur, c, (MAX_ITERATIONS - g) as nat),
        ensures
            g == escape_count(z, c, MAX_ITERATIONS as nat),
        decreases MAX_ITERATIONS - g,
    {
        if g == MAX_ITERATIONS {
            break;
        }
        let norm_bits = cx_norm(cur);
        if norm_bits > ESCAPE_BOUND_BITS {
            break;
        }
        cur = cx_add(cx_mul(cur, cur), c);
        g = g + 1;
    }
    g
}

/// Synthesizes the full escape-time raster of the given dimensions: a
/// raster of exactly `width * height` pixels, each one equal to the
/// pixel the mathematical description above gives for its cell.
pub fn synthesize(width: u32, height: u32) -> (r: Raster)
    requires
        1 <= width,
        1 <= height,
        (width as nat) * (height as nat) <= usize::MAX as nat,
    ensures
        r.wf(),
        r.width == width,
        r.height == height,
        r@ == synthesized(width, height),
{
    let c = ComplexBits { re: PARAM_RE_BITS, im: PARAM_IM_BITS };
    let mut pixels: Vec<Pixel> = Vec::new();
    let mut y: u32 = 0;
    while y < height
        invariant
            y <= height,
            pixels@.len() == (y as nat) * (width as nat),
            (width as nat) * (height as nat) <= usize::MAX as nat,
            1 <= width,
            c == param_c(),
            forall|i: int| 0 <= i < pixels@.len()
                ==> pixels@[i] == #[trigger] synthesized(width, height)[i],
        decreases height - y,
    {
        let mut x: u32 = 0;
        while x < width
            invariant
                y < height,
                x <= width,
                pixels@.len() == (y as nat) * (width as nat) + (x as nat),
                (width as nat) * (height as nat) <= usize::MAX as nat,
                1 <= width,
                c == param_c(),
                forall|i: int| 0 <= i < pixels@.len()
                    ==> pixels@[i] == #[trigger] synthesized(width, height)[i],
            decreases width - x,
        {
            let red = background_ramp(x);
            let blue = background_ramp(y);
            let green = escape_green(seed_at(x, y, width, height), c);
            let pixel = Pixel { red, green, blue, alpha: 255 };
            proof {
                let w = width as int;
                let idx = (y as int) * w + (x as int);
                assert((y as int) * w + (x as int) < w * (height as int)
                    && (y as int) * w + (width as int) <= w * (height as int))
                    by (nonlinear_arith)
                    requires
                        x < width,
                        y < height,
                        w == width as int,
                ;
                lemma_fundamental_div_mod_converse(idx, w, y as int, x as int);
                assert(synthesized(width, height)[idx] == pixel_value(x, y, width, height));
                assert(pixel == pixel_value(x, y, width, height));
            }
            pixels.push(pixel);
            x = x + 1;
        }
        proof {
            assert((y as nat) * (width as nat) + (width as nat)
                == ((y + 1) as nat) * (width as nat)) by (nonlinear_arith);
        }
        y = y + 1;
    }
    proof {
        assert((height as nat) * (width as nat) == (width as nat) * (height as nat))
            by (nonlinear_arith);
        assert(pixels@ =~= synthesized(width, height));
    }
    Raster { width, height, pixels }
}

/// Stepping once and then iterating `k` times is iterating `k + 1` times.
proof fn lemma_iterate_shift(z: ComplexBits, c: ComplexBits, k: nat)
    ensures
        z_iterate(z_next(z, c), c, k) == z_iterate(z, c, k + 1),
    decreases k,
{
    if k == 0 {
        assert(z_iterate(z, c, 0) == z);
        assert(z_iterate(z_next(z, c), c, 0) == z_next(z, c));
        assert(z_iterate(z, c, 1) == z_next(z_iterate(z, c, 0), c));
    } else {
        lemma_iterate_shift(z, c, (k - 1) as nat);
        assert(z_iterate(z_next(z, c), c, k) == z_next(z_iterate(z_next(z, c), c, (k - 1) as nat), c));
        assert(z_iterate(z, c, k + 1) == z_next(z_iterate(z, c, k), c));
    }
}

/// The escape count never exceeds the fuel it is given.
pub proof fn lemma_escape_count_bounded(z: ComplexBits, c: ComplexBits, fuel: nat)
    ensures
        escape_count(z, c, fuel) <= fuel,
    decreases fuel,
{
    if fuel > 0 && stays_bounded(z) {
        lemma_escape_count_bounded(z_next(z, c), c, (fuel - 1) as nat);
    }
}

/// A trajectory that stays within the escape bound for every step of the
/// given budget spends the whole budget.
pub proof fn lemma_bounded_orbit_spends_fuel(z: ComplexBits, c: ComplexBits, fuel: nat)
    requires
        forall|k: nat| k < fuel ==> stays_bounded(#[trigger] z_iterate(z, c, k)),
    ensures
        escape_count(z, c, fuel) == fuel,
    decreases fuel,
{
    if fuel > 0 {
        assert(stays_bounded(z_iterate(z, c, 0)));
        assert forall|k: nat| k < fuel - 1 implies stays_bounded(
            #[trigger] z_iterate(z_next(z, c), c, k),
        ) by {
            lemma_iterate_shift(z, c, k);
            assert(stays_bounded(z_iterate(z, c, k + 1)));
        }
        lemma_bounded_orbit_spends_fuel(z_next(z, c), c, (fuel - 1) as nat);
    }
}

/// A pixel whose trajectory stays within the escape bound through every
/// step of the iteration budget reports the full green value, the
/// budget itself, not one more and not one less.
pub proof fn lemma_never_escaping_green_is_full(z: ComplexBits, c: ComplexBits)
    requires
        forall|k: nat| k < MAX_ITERATIONS as nat
            ==> stays_bounded(#[trigger] z_iterate(z, c, k)),
    ensures
        escape_count(z, c, MAX_ITERATIONS as nat) == MAX_ITERATIONS,
{
    lemma_bounded_orbit_spends_fuel(z, c, MAX_ITERATIONS as nat);
}

/// A synthesized raster covers every cell of the grid, and every one of
/// its pixels is fully opaque.
pub proof fn lemma_synthesized_covers(width: u32, height: u32)
    ensures
        synthesized(width, height).len() == (width as nat) * (height as nat),
        forall|i: int| 0 <= i < synthesized(width, height).len()
            ==> #[trigger] synthesized(width, height)[i].alpha == 255,
{
}

/// Synthesis is deterministic: two rasters of the same dimensions that
/// both meet the contract of `synthesize` agree pixel for pixel.
pub proof fn lemma_synthesis_deterministic(a: Raster, b: Raster, width: u32, height: u32)
    requires
        a@ == synthesized(width, height),
        b@ == synthesized(width, height),
    ensures
        a@ == b@,
{
}

/// The background ramp never decreases as its coordinate grows.
pub proof fn lemma_ramp_monotonic(a: nat, b: nat)
    requires
        a <= b,
    ensures
        ramp(a) <= ramp(b),
{
    lemma_div_is_ordered(3 * (a as int), 3 * (b as int), 10);
}

/// Along a fixed row of a synthesized raster, the red channel never
/// decreases from one column to a later one.
pub proof fn lemma_red_monotonic_in_row(width: u32, height: u32, y: u32, x1: u32, x2: u32)
    requires
        x1 <= x2 < width,
        y < height,
    ensures
        synthesized(width, height)[(y as int) * (width as int) + (x1 as int)].red
            <= synthesized(width, height)[(y as int) * (width as int) + (x2 as int)].red,
{
    let w = width as int;
    let i1 = (y as int) * w + (x1 as int);
    let i2 = (y as int) * w + (x2 as int);
    assert(i2 < w * (height as int)) by (nonlinear_arith)
        requires
            x2 < width,
            y < height,
            w == width as int,
            i2 == (y as int) * w + (x2 as int),
    ;
    lemma_fundamental_div_mod_converse(i1, w, y as int, x1 as int);
    lemma_fundamental_div_mod_converse(i2, w, y as int, x2 as int);
    lemma_ramp_monotonic(x1 as nat, x2 as nat);
}

/// Down a fixed column of a synthesized raster, the blue channel never
/// decreases from one row to a later one.
pub proof fn lemma_blue_monotonic_in_column(width: u32, height: u32, x: u32, y1: u32, y2: u32)
    requires
        x < width,
        y1 <= y2 < height,
    ensures
        synthesized(width, height)[(y1 as int) * (width as int) + (x as int)].blue
            <= synthesized(width, height)[(y2 as int) * (width as int) + (x as int)].blue,
{
    let w = width as int;
    let i1 = (y1 as int) * w + (x as int);
    let i2 = (y2 as int) * w + (x as int);
    assert(i1 <= i2 < w * (height as int)) by (nonlinear_arith)
        requires
            x < width,
            y1 <= y2 < height,
            w == width as int,
            i1 == (y1 as int) * w + (x as int),
            i2 == (y2 as int) * w + (x as int),
    ;
    lemma_fundamental_div_mod_converse(i1, w, y1 as int, x as int);
    lemma_fundamental_div_mod_converse(i2, w, y2 as int, x as int);
    lemma_ramp_monotonic(y1 as nat, y2 as nat);
}

} // verus!
