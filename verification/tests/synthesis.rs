use mirage::cbits::ComplexBits;
use mirage::fractal::{
    background_ramp, escape_green, seed_at, synthesize, ESCAPE_BOUND_BITS, PARAM_IM_BITS,
    PARAM_RE_BITS, REGION_OFFSET_BITS, REGION_SPAN_BITS,
};
use mirage::raster::Pixel;

fn param_c() -> ComplexBits {
    ComplexBits { re: PARAM_RE_BITS, im: PARAM_IM_BITS }
}

/// The per-pixel escape-time computation written directly over
/// single-precision values, for comparison with the library.
fn direct_pixel(x: u32, y: u32, width: u32, height: u32) -> (u8, u8, u8, u8) {
    let scale_x = 3.0 / width as f32;
    let scale_y = 3.0 / height as f32;
    let red = (0.3 * x as f32) as u8;
    let blue = (0.3 * y as f32) as u8;
    let cx = y as f32 * scale_x - 1.5;
    let cy = x as f32 * scale_y - 1.5;
    let c = num_complex::Complex::new(-0.4, 0.6);
    let mut z = num_complex::Complex::new(cx, cy);
    let mut green: u32 = 0;
    while green < 255 && z.norm() <= 2.0 {
        z = z * z + c;
        green += 1;
    }
    (red, green as u8, blue, 255)
}

#[test]
fn bit_constants_are_the_intended_values() {
    assert_eq!(PARAM_RE_BITS, (-0.4f32).to_bits());
    assert_eq!(PARAM_IM_BITS, 0.6f32.to_bits());
    assert_eq!(ESCAPE_BOUND_BITS, 2.0f32.to_bits());
    assert_eq!(REGION_SPAN_BITS, 3.0f32.to_bits());
    assert_eq!(REGION_OFFSET_BITS, 1.5f32.to_bits());
}

#[test]
fn ramp_matches_the_scaled_cast_for_a_sweep_of_coordinates() {
    for v in 0u32..=4000 {
        assert_eq!(background_ramp(v), (0.3 * v as f32) as u8);
    }
}

#[test]
fn ramp_saturates_at_the_channel_maximum() {
    assert_eq!(background_ramp(849), 254);
    assert_eq!(background_ramp(850), 255);
    assert_eq!(background_ramp(u32::MAX), 255);
}

#[test]
fn raster_has_full_pixel_count_and_opacity() {
    let r = synthesize(3, 5);
    assert_eq!(r.width, 3);
    assert_eq!(r.height, 5);
    assert_eq!(r.pixels.len(), 15);
    for p in &r.pixels {
        assert_eq!(p.alpha, 255);
    }
}

#[test]
fn repeated_synthesis_is_byte_identical() {
    let a = synthesize(6, 4);
    let b = synthesize(6, 4);
    assert_eq!(a.pixels, b.pixels);
}

#[test]
fn unit_raster_is_the_black_pixel() {
    let r = synthesize(1, 1);
    assert_eq!(r.pixels.len(), 1);
    assert_eq!(r.pixels[0], Pixel { red: 0, green: 0, blue: 0, alpha: 255 });
}

#[test]
fn origin_pixel_escapes_immediately_at_large_sizes() {
    let seed = seed_at(0, 0, 800, 800);
    assert_eq!(seed.re, (-1.5f32).to_bits());
    assert_eq!(seed.im, (-1.5f32).to_bits());
    assert_eq!(escape_green(seed, param_c()), 0);
}

#[test]
fn seed_matches_directly_computed_offsets() {
    let seed = seed_at(3, 5, 7, 11);
    let expect_re = 5 as f32 * (3.0 / 7 as f32) - 1.5;
    let expect_im = 3 as f32 * (3.0 / 11 as f32) - 1.5;
    assert_eq!(seed.re, expect_re.to_bits());
    assert_eq!(seed.im, expect_im.to_bits());
}

#[test]
fn bounded_orbit_reports_the_full_green_value() {
    let zero = ComplexBits { re: 0.0f32.to_bits(), im: 0.0f32.to_bits() };
    assert_eq!(escape_green(zero, zero), 255);
    let minus_one = ComplexBits { re: (-1.0f32).to_bits(), im: 0.0f32.to_bits() };
    assert_eq!(escape_green(zero, minus_one), 255);
}

#[test]
fn short_orbit_counts_its_exact_steps() {
    let one = ComplexBits { re: 1.0f32.to_bits(), im: 0.0f32.to_bits() };
    let half = ComplexBits { re: 0.5f32.to_bits(), im: 0.0f32.to_bits() };
    assert_eq!(escape_green(one, half), 2);
}

#[test]
fn raster_matches_a_direct_computation() {
    for (width, height) in [(1, 1), (7, 9), (32, 20)] {
        let r = synthesize(width, height);
        assert_eq!(r.pixels.len(), (width * height) as usize);
        for y in 0..height {
            for x in 0..width {
                let (red, green, blue, alpha) = direct_pixel(x, y, width, height);
                let p = r.pixels[(y * width + x) as usize];
                assert_eq!((p.red, p.green, p.blue, p.alpha), (red, green, blue, alpha));
            }
        }
    }
}

#[test]
fn red_never_decreases_along_a_row() {
    let r = synthesize(900, 1);
    let mut previous: u8 = 0;
    for x in 0..900u32 {
        let p = r.pixel_at(x, 0);
        assert!(p.red >= previous);
        previous = p.red;
    }
    assert_eq!(r.pixel_at(899, 0).red, 255);
}

#[test]
fn blue_never_decreases_down_a_column() {
    let r = synthesize(1, 900);
    let mut previous: u8 = 0;
    for y in 0..900u32 {
        let p = r.pixel_at(0, y);
        assert!(p.blue >= previous);
        previous = p.blue;
    }
    assert_eq!(r.pixel_at(0, 899).blue, 255);
}

#[test]
fn pixel_at_reads_row_major_cells() {
    let r = synthesize(5, 4);
    for y in 0..4u32 {
        for x in 0..5u32 {
            assert_eq!(r.pixel_at(x, y), r.pixels[(y * 5 + x) as usize]);
        }
    }
}
