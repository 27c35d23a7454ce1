use vstd::prelude::*;

verus! {

/// A complex value in IEEE 754 single precision, carried as the raw bit
/// patterns of its two components. All arithmetic on such values happens
/// inside `num_complex`, behind the trusted functions below; the verified
/// code only composes those operations and never takes the bits apart.
#[derive(Clone, Copy, PartialEq, Eq, Structural, Debug)]
pub struct ComplexBits {
    pub re: u32,
    pub im: u32,
}

/// The bit patterns of the product of two complex values.
pub uninterp spec fn cmul(a: ComplexBits, b: ComplexBits) -> ComplexBits;

/// The bit patterns of the sum of two complex values.
pub uninterp spec fn cadd(a: ComplexBits, b: ComplexBits) -> ComplexBits;

/// The bit pattern of the magnitude of a complex value. A magnitude is
/// never negative, so comparing two such patterns as unsigned integers
/// compares the magnitudes themselves; a non-numeric pattern compares
/// above every numeric one.
pub uninterp spec fn cnorm(z: ComplexBits) -> u32;

/// The bit pattern of the single-precision value nearest to the integer `n`.
pub uninterp spec fn repr(n: u32) -> u32;

/// The bit pattern of the single-precision quotient of `a` by `b`.
pub uninterp spec fn fquot(a: u32, b: u32) -> u32;

/// The bit pattern of the single-precision product of `a` and `b`.
pub uninterp spec fn fprod(a: u32, b: u32) -> u32;

/// The bit pattern of the single-precision difference of `a` and `b`.
pub uninterp spec fn fdiff(a: u32, b: u32) -> u32;

/// Relies on `num_complex`'s multiplication of two complex values and on
/// `bytemuck`'s cast between a pair of bit patterns and a complex value:
/// IEEE 754 arithmetic is a function of the operand bits alone.
#[verifier::external_body]
pub(crate) fn cx_mul(a: ComplexBits, b: ComplexBits) -> (r: ComplexBits)
    ensures
        r == cmul(a, b),
{
    let av: num_complex::Complex32 = bytemuck::cast([a.re, a.im]);
    let bv: num_complex::Complex32 = bytemuck::cast([b.re, b.im]);
    let p: [u32; 2] = bytemuck::cast(av * bv);
    ComplexBits { re: p[0], im: p[1] }
}

/// Relies on `num_complex`'s addition of two complex values, which adds
/// the components; a function of the operand bits alone.
#[verifier::external_body]
pub(crate) fn cx_add(a: ComplexBits, b: ComplexBits) -> (r: ComplexBits)
    ensures
        r == cadd(a, b),
{
    let av: num_complex::Complex32 = bytemuck::cast([a.re, a.im]);
    let bv: num_complex::Complex32 = bytemuck::cast([b.re, b.im]);
    let p: [u32; 2] = bytemuck::cast(av + bv);
    ComplexBits { re: p[0], im: p[1] }
}

/// Relies on `num_complex::Complex::norm`, the magnitude of a complex
/// value; a function of the operand bits alone, handed back as bits.
#[verifier::external_body]
pub(crate) fn cx_norm(z: ComplexBits) -> (r: u32)
    ensures
        r == cnorm(z),
{
    let zv: num_complex::Complex32 = bytemuck::cast([z.re, z.im]);
    zv.norm().to_bits()
}

/// Relies on `num_traits::cast`, which rounds an unsigned integer to the
/// nearest single-precision value; every 32-bit integer is in range.
#[verifier::external_body]
pub(crate) fn int_repr(n: u32) -> (r: u32)
    ensures
        r == repr(n),
{
    let v = num_complex::Complex32::new(
        num_traits::cast(n).expect("in range"),
        num_traits::cast(0u32).expect("in range"),
    );
    let p: [u32; 2] = bytemuck::cast(v);
    p[0]
}

/// Relies on `num_complex`'s division of a complex value by a real one,
/// which divides each component by it; the real components carry the
/// operands, so the real component of the result is their quotient.
#[verifier::external_body]
pub(crate) fn fl_div(a: u32, b: u32) -> (r: u32)
    ensures
        r == fquot(a, b),
{
    let av: num_complex::Complex32 = bytemuck::cast([a, 0u32]);
    let bv: num_complex::Complex32 = bytemuck::cast([b, 0u32]);
    let p: [u32; 2] = bytemuck::cast(av / bv.re);
    p[0]
}

/// Relies on `num_complex`'s multiplication of a complex value by a real
/// one, which multiplies each component by it.
#[verifier::external_body]
pub(crate) fn fl_mul(a: u32, b: u32) -> (r: u32)
    ensures
        r == fprod(a, b),
{
    let av: num_complex::Complex32 = bytemuck::cast([a, 0u32]);
    let bv: num_complex::Complex32 = bytemuck::cast([b, 0u32]);
    let p: [u32; 2] = bytemuck::cast(av * bv.re);
    p[0]
}

/// Relies on `num_complex`'s subtraction of a real value from a complex
/// one, which subtracts it from the real component.
#[verifier::external_body]
pub(crate) fn fl_sub(a: u32, b: u32) -> (r: u32)
    ensures
        r == fdiff(a, b),
{
    let av: num_complex::Complex32 = bytemuck::cast([a, 0u32]);
    let bv: num_complex::Complex32 = bytemuck::cast([b, 0u32]);
    let p: [u32; 2] = bytemuck::cast(av - bv.re);
    p[0]
}

} // verus!
