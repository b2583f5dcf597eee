//! 24.8 fixed-point numbers.
use vstd::prelude::*;

verus! {

/// A signed 24.8 fixed-point number.
pub type Fixed = i32;

pub const FIXED_SHIFT: u32 = 8;

pub const FIXED_ONE: Fixed = 256;

pub const FIXED_HALF: Fixed = 128;

/// The `i32` value that is congruent to `x` modulo 2^32 (two's complement wrap).
pub open spec fn wrap_i32(x: int) -> int {
    x - 0x1_0000_0000 * ((x + 0x8000_0000) / 0x1_0000_0000)
}

/// Integer division rounding toward zero, as Rust's `/` does.
pub open spec fn div_toward_zero(a: int, b: int) -> int {
    let q: int = (vstd::math::abs(a) / vstd::math::abs(b)) as int;
    if (a < 0) != (b < 0) { -q } else { q }
}

/// The product of two fixed-point numbers, rounded half up, wrapped to 32 bits.
pub open spec fn spec_fixed_mul(a: int, b: int) -> int {
    wrap_i32((a * b + FIXED_HALF) / FIXED_ONE as int)
}

/// The quotient of two fixed-point numbers, rounded toward zero, wrapped to 32 bits.
pub open spec fn spec_fixed_div(a: int, b: int) -> int {
    wrap_i32(div_toward_zero(a * FIXED_ONE, b))
}

/// Largest multiple of `FIXED_ONE` that is at most `f`.
pub open spec fn spec_fixed_floor(f: int) -> int {
    (f / FIXED_ONE as int) * FIXED_ONE
}

/// Smallest multiple of `FIXED_ONE` that is at least `f`.
pub open spec fn spec_fixed_ceil(f: int) -> int {
    ((f + FIXED_ONE - 1) / FIXED_ONE as int) * FIXED_ONE
}

/// The multiple of `FIXED_ONE` nearest to `f`, halves rounded up.
pub open spec fn spec_fixed_round(f: int) -> int {
    ((f + FIXED_HALF) / FIXED_ONE as int) * FIXED_ONE
}

proof fn lemma_wrap_i64_to_i32(x: i64)
    ensures
        (x as i32) as int == wrap_i32(x as int),
{
    assert((x as i32) as int == x - 0x1_0000_0000 * ((x + 0x8000_0000) / 0x1_0000_0000))
        by (bit_vector);
}

/// Fixed-point multiplication: `a * b / 256`, rounded half up.
/// The exact result is wrapped to 32 bits when it does not fit.
pub fn fixed_mul(a: Fixed, b: Fixed) -> (r: Fixed)
    ensures
        r as int == spec_fixed_mul(a as int, b as int),
{
    assert(-0x4000_0000_0000_0000 <= a * b <= 0x4000_0000_0000_0000) by (nonlinear_arith)
        requires
            -0x8000_0000 <= a < 0x8000_0000,
            -0x8000_0000 <= b < 0x8000_0000,
    ;
    let p: i64 = a as i64 * b as i64 + FIXED_HALF as i64;
    assert(p >> 8u32 == p / 256) by (bit_vector);
    let q: i64 = p >> FIXED_SHIFT;
    proof {
        lemma_wrap_i64_to_i32(q);
    }
    q as Fixed
}

/// Fixed-point division: `a * 256 / b`, rounded toward zero.
/// The exact result is wrapped to 32 bits when it does not fit.
pub fn fixed_div(a: Fixed, b: Fixed) -> (r: Fixed)
    requires
        b != 0,
    ensures
        r as int == spec_fixed_div(a as int, b as int),
{
    let n: i64 = a as i64;
    assert(n << 8u32 == n * 256) by (bit_vector)
        requires
            -0x8000_0000 <= n < 0x8000_0000,
    ;
    let s: i64 = n << FIXED_SHIFT;
    // `s / b` rounding toward zero, computed on magnitudes.
    let s_mag: u64 = if s < 0 { (-s) as u64 } else { s as u64 };
    let b_mag: u64 = if b < 0 { (-(b as i64)) as u64 } else { b as u64 };
    let m: u64 = s_mag / b_mag;
    assert(m <= s_mag) by (nonlinear_arith)
        requires
            m == s_mag / b_mag,
            b_mag >= 1,
    ;
    let q: i64 = if (s < 0) != (b < 0) { -(m as i64) } else { m as i64 };
    assert(q == div_toward_zero(s as int, b as int));
    proof {
        lemma_wrap_i64_to_i32(q);
    }
    q as Fixed
}

/// Rounds down to a whole fixed-point number.
pub fn fixed_floor(f: Fixed) -> (r: Fixed)
    ensures
        r as int == spec_fixed_floor(f as int),
{
    assert(f & !255i32 == (f / 256) * 256) by (bit_vector);
    f & !(FIXED_ONE - 1)
}

/// Rounds up to a whole fixed-point number.
pub fn fixed_ceil(f: Fixed) -> (r: Fixed)
    requires
        f + FIXED_ONE <= i32::MAX,
    ensures
        r as int == spec_fixed_ceil(f as int),
{
    let g: i32 = f + FIXED_ONE - 1;
    assert(g & !255i32 == (g / 256) * 256) by (bit_vector);
    g & !(FIXED_ONE - 1)
}

/// Rounds to the nearest whole fixed-point number, halves up.
pub fn fixed_round(f: Fixed) -> (r: Fixed)
    requires
        f + FIXED_HALF <= i32::MAX,
    ensures
        r as int == spec_fixed_round(f as int),
{
    let g: i32 = f + FIXED_HALF;
    assert(g & !255i32 == (g / 256) * 256) by (bit_vector);
    g & !(FIXED_ONE - 1)
}

/// An affine transform in fixed point:
/// `x' = a*x + c*y + e`, `y' = b*x + d*y + f`.
#[derive(Debug, Clone, Copy, PartialEq, Eq)]
pub struct FixedMatrix {
    pub a: Fixed,
    pub c: Fixed,
    pub e: Fixed,
    pub b: Fixed,
    pub d: Fixed,
    pub f: Fixed,
}

impl FixedMatrix {
    /// The identity transform.
    pub open spec fn spec_identity() -> FixedMatrix {
        FixedMatrix { a: FIXED_ONE, c: 0, e: 0, b: 0, d: FIXED_ONE, f: 0 }
    }

    /// The x coordinate that `map_point` gives, before it is stored in 32 bits.
    pub open spec fn spec_map_x(self, x: int, y: int) -> int {
        spec_fixed_mul(self.a as int, x) + spec_fixed_mul(self.c as int, y) + self.e
    }

    /// The y coordinate that `map_point` gives, before it is stored in 32 bits.
    pub open spec fn spec_map_y(self, x: int, y: int) -> int {
        spec_fixed_mul(self.b as int, x) + spec_fixed_mul(self.d as int, y) + self.f
    }

    /// No partial sum of `map_point` leaves the `i32` range.
    pub open spec fn map_point_fits(self, x: int, y: int) -> bool {
        let ax = spec_fixed_mul(self.a as int, x);
        let cy = spec_fixed_mul(self.c as int, y);
        let bx = spec_fixed_mul(self.b as int, x);
        let dy = spec_fixed_mul(self.d as int, y);
        &&& i32::MIN <= ax + cy <= i32::MAX
        &&& i32::MIN <= ax + cy + self.e <= i32::MAX
        &&& i32::MIN <= bx + dy <= i32::MAX
        &&& i32::MIN <= bx + dy + self.f <= i32::MAX
    }

    pub fn identity() -> (m: Self)
        ensures
            m == Self::spec_identity(),
    {
        Self { a: FIXED_ONE, c: 0, e: 0, b: 0, d: FIXED_ONE, f: 0 }
    }

    /// Maps the point `(x, y)`.
    pub fn map_point(self, x: Fixed, y: Fixed) -> (r: (Fixed, Fixed))
        requires
            self.map_point_fits(x as int, y as int),
        ensures
            r.0 as int == self.spec_map_x(x as int, y as int),
            r.1 as int == self.spec_map_y(x as int, y as int),
    {
        (fixed_mul(self.a, x) + fixed_mul(self.c, y) + self.e, fixed_mul(self.b, x) + fixed_mul(
            self.d,
            y,
        ) + self.f)
    }
}

impl Default for FixedMatrix {
    fn default() -> (m: Self)
        ensures
            m == Self::spec_identity(),
    {
        Self::identity()
    }
}

/// Multiplying by one gives the number back: `fixed_mul(a, FIXED_ONE) == a`.
pub proof fn lemma_fixed_mul_one(a: Fixed)
    ensures
        spec_fixed_mul(a as int, FIXED_ONE as int) == a,
        spec_fixed_mul(FIXED_ONE as int, a as int) == a,
{
    assert((a * 256 + 128) / 256 == a) by (nonlinear_arith);
    assert((256 * a + 128) / 256 == a) by (nonlinear_arith);
}

/// Multiplying by zero gives zero.
pub proof fn lemma_fixed_mul_zero(a: Fixed)
    ensures
        spec_fixed_mul(a as int, 0) == 0,
        spec_fixed_mul(0, a as int) == 0,
{
}

/// Fixed-point multiplication is commutative.
pub proof fn lemma_fixed_mul_commutative(a: Fixed, b: Fixed)
    ensures
        spec_fixed_mul(a as int, b as int) == spec_fixed_mul(b as int, a as int),
{
    assert(a * b == b * a) by (nonlinear_arith);
}

/// Dividing by one gives the number back: `fixed_div(a, FIXED_ONE) == a`.
pub proof fn lemma_fixed_div_one(a: Fixed)
    ensures
        spec_fixed_div(a as int, FIXED_ONE as int) == a,
{
    assert(vstd::math::abs(a * 256) / 256 == vstd::math::abs(a as int)) by (nonlinear_arith);
}

/// Floor, round and ceil bracket the number and land on whole numbers:
/// `floor(f) <= f <= ceil(f)`, `floor(f) <= round(f) <= ceil(f)`, each within one unit of `f`.
pub proof fn lemma_fixed_rounding_order(f: Fixed)
    ensures
        spec_fixed_floor(f as int) <= f < spec_fixed_floor(f as int) + FIXED_ONE,
        spec_fixed_ceil(f as int) - FIXED_ONE < f <= spec_fixed_ceil(f as int),
        spec_fixed_floor(f as int) <= spec_fixed_round(f as int) <= spec_fixed_ceil(f as int),
        f - FIXED_HALF < spec_fixed_round(f as int) <= f + FIXED_HALF,
        spec_fixed_floor(f as int) % FIXED_ONE as int == 0,
        spec_fixed_ceil(f as int) % FIXED_ONE as int == 0,
        spec_fixed_round(f as int) % FIXED_ONE as int == 0,
{
}

/// Rounding a whole number changes nothing.
pub proof fn lemma_fixed_rounding_idempotent(f: Fixed)
    ensures
        spec_fixed_floor(spec_fixed_floor(f as int)) == spec_fixed_floor(f as int),
        spec_fixed_ceil(spec_fixed_floor(f as int)) == spec_fixed_floor(f as int),
        spec_fixed_round(spec_fixed_floor(f as int)) == spec_fixed_floor(f as int),
{
}

/// The identity matrix maps every point to itself.
pub proof fn lemma_identity_maps_point(x: Fixed, y: Fixed)
    ensures
        FixedMatrix::spec_identity().map_point_fits(x as int, y as int),
        FixedMatrix::spec_identity().spec_map_x(x as int, y as int) == x,
        FixedMatrix::spec_identity().spec_map_y(x as int, y as int) == y,
{
    lemma_fixed_mul_one(x);
    lemma_fixed_mul_one(y);
}

/// How `map_point` treats each coordinate. The origin goes to the translation `(e, f)`;
/// a point on the x axis `(x, 0)` goes to `(a*x + e, b*x + f)` and a point on the y axis
/// `(0, y)` to `(c*y + e, d*y + f)` (products in fixed point); and any point maps to the sum
/// of what its two axis parts move by, plus the translation. Swapping the matrix's rows
/// `(a, c, e)` and `(b, d, f)` swaps the two coordinates of the result.
pub proof fn lemma_map_point_coordinates(m: FixedMatrix, x: Fixed, y: Fixed)
    ensures
        m.spec_map_x(0, 0) == m.e,
        m.spec_map_y(0, 0) == m.f,
        m.spec_map_x(x as int, 0) == spec_fixed_mul(m.a as int, x as int) + m.e,
        m.spec_map_y(x as int, 0) == spec_fixed_mul(m.b as int, x as int) + m.f,
        m.spec_map_x(0, y as int) == spec_fixed_mul(m.c as int, y as int) + m.e,
        m.spec_map_y(0, y as int) == spec_fixed_mul(m.d as int, y as int) + m.f,
        m.spec_map_x(x as int, y as int) == m.spec_map_x(x as int, 0) + m.spec_map_x(0, y as int)
            - m.e,
        m.spec_map_y(x as int, y as int) == m.spec_map_y(x as int, 0) + m.spec_map_y(0, y as int)
            - m.f,
        ({
            let swapped = FixedMatrix { a: m.b, c: m.d, e: m.f, b: m.a, d: m.c, f: m.e };
            &&& swapped.spec_map_x(x as int, y as int) == m.spec_map_y(x as int, y as int)
            &&& swapped.spec_map_y(x as int, y as int) == m.spec_map_x(x as int, y as int)
        }),
{
    lemma_fixed_mul_zero(m.a);
    lemma_fixed_mul_zero(m.b);
    lemma_fixed_mul_zero(m.c);
    lemma_fixed_mul_zero(m.d);
}

/// A 32-bit value is kept by the wrap to 32 bits.
proof fn lemma_wrap_i32_in_range(x: int)
    requires
        i32::MIN <= x <= i32::MAX,
    ensures
        wrap_i32(x) == x,
{
    assert((x + 0x8000_0000) / 0x1_0000_0000 == 0);
}

/// When the product fits, `fixed_mul(a, b)` is the fixed-point number nearest to the exact
/// product `a * b / 256`, halves rounded up: `256 * r - 128 <= a * b < 256 * r + 128`.
pub proof fn lemma_fixed_mul_nearest(a: Fixed, b: Fixed)
    requires
        i32::MIN * 256 <= a * b + FIXED_HALF < (i32::MAX + 1) * 256,
    ensures
        ({
            let r = spec_fixed_mul(a as int, b as int);
            &&& 256 * r - 128 <= a * b
            &&& a * b < 256 * r + 128
        }),
{
    let p: int = a * b + 128;
    let q: int = p / 256;
    assert(i32::MIN <= q <= i32::MAX);
    lemma_wrap_i32_in_range(q);
}

/// When the quotient fits, `fixed_div(a, b)` is the exact quotient `a * 256 / b` rounded
/// toward zero: its magnitude times `|b|` is at most `|a * 256|`, one more would be too
/// much, and it is not of the opposite sign.
pub proof fn lemma_fixed_div_truncates(a: Fixed, b: Fixed)
    requires
        b != 0,
        i32::MIN <= div_toward_zero(a * 256, b as int) <= i32::MAX,
    ensures
        ({
            let r = spec_fixed_div(a as int, b as int);
            let n = vstd::math::abs(a * 256);
            let d = vstd::math::abs(b as int);
            &&& vstd::math::abs(r) * d <= n
            &&& n < (vstd::math::abs(r) + 1) * d
            &&& r == 0 || ((r > 0) == ((a < 0) == (b < 0)))
        }),
{
    lemma_wrap_i32_in_range(div_toward_zero(a * 256, b as int));
    let n = vstd::math::abs(a * 256);
    let d = vstd::math::abs(b as int);
    let q: int = (n / d) as int;
    assert(q * d <= n && n < (q + 1) * d) by (nonlinear_arith)
        requires
            d > 0,
            n >= 0,
            q == n / d,
    ;
    assert(a * 256 < 0 <==> a < 0);
}

/// Wrapping to 32 bits gives a value of `i32` that differs from the exact one by a
/// multiple of 2^32, as two's complement arithmetic does.
pub proof fn lemma_wrap_i32_congruent(x: int)
    ensures
        i32::MIN <= wrap_i32(x) <= i32::MAX,
        (x - wrap_i32(x)) % 0x1_0000_0000 == 0,
{
    let q: int = (x + 0x8000_0000) / 0x1_0000_0000;
    assert(0 <= (x + 0x8000_0000) - q * 0x1_0000_0000 < 0x1_0000_0000);
    assert((q * 0x1_0000_0000) % 0x1_0000_0000 == 0) by (nonlinear_arith);
}

} // verus!
