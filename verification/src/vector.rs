//! Fixed-point vectors and their mathematical model.
//!
//! A [`Vector`] has three `i32` components. A planar (two-dimensional) world
//! uses the same type with `z == 0`; every operation keeps a planar input
//! planar. The model of a vector is a [`MathVector`] of unbounded integers,
//! and the contract of each operation gives the exact result over the
//! model, clamped component by component where it leaves the `i32` range.

use vstd::prelude::*;
use crate::arith::{ceil_sqrt, clamp_component, floor_sqrt, is_floor_sqrt, trunc_div};
use crate::arith::{div_toward_zero, integer_sqrt, integer_sqrt_ceil, saturate};
use crate::arith::{lemma_ceil_sqrt, lemma_trunc_div_bounds};

verus! {

/// Sub-units per world unit.
pub const UNIT: i32 = 256;

/// Factor by which a heading is enlarged before its length is taken, so that
/// rescaling a short vector loses little precision.
pub const PRECISION: i64 = 65536;

/// Largest component magnitude of a heading handed to [`rescale`].
pub const HEADING_LIMIT: i64 = 0x1000_0000_0000;

/// A coordinate axis.
#[derive(Clone, Copy, Debug, PartialEq, Eq, Structural)]
pub enum Axis {
    X,
    Y,
    Z,
}

impl Axis {
    /// The axis that follows this one, in the round x, y, z.
    pub open spec fn next(self) -> Axis {
        match self {
            Axis::X => Axis::Y,
            Axis::Y => Axis::Z,
            Axis::Z => Axis::X,
        }
    }

    /// The axis that follows this one, in the round x, y, z.
    pub fn following(self) -> (axis: Axis)
        ensures
            axis == self.next(),
    {
        match self {
            Axis::X => Axis::Y,
            Axis::Y => Axis::Z,
            Axis::Z => Axis::X,
        }
    }
}

/// A vector of unbounded integers: the model of [`Vector`].
pub struct MathVector {
    pub x: int,
    pub y: int,
    pub z: int,
}

impl MathVector {
    pub open spec fn zero() -> MathVector {
        MathVector { x: 0, y: 0, z: 0 }
    }

    pub open spec fn plus(self, other: MathVector) -> MathVector {
        MathVector { x: self.x + other.x, y: self.y + other.y, z: self.z + other.z }
    }

    pub open spec fn minus(self, other: MathVector) -> MathVector {
        MathVector { x: self.x - other.x, y: self.y - other.y, z: self.z - other.z }
    }

    pub open spec fn scaled(self, k: int) -> MathVector {
        MathVector { x: self.x * k, y: self.y * k, z: self.z * k }
    }

    /// Each component divided by a positive `d`, rounded toward zero.
    pub open spec fn quotient(self, d: int) -> MathVector {
        MathVector {
            x: trunc_div(self.x, d),
            y: trunc_div(self.y, d),
            z: trunc_div(self.z, d),
        }
    }

    pub open spec fn dot(self, other: MathVector) -> int {
        self.x * other.x + self.y * other.y + self.z * other.z
    }

    pub open spec fn norm_squared(self) -> int {
        self.x * self.x + self.y * self.y + self.z * self.z
    }

    pub open spec fn is_zero(self) -> bool {
        self.x == 0 && self.y == 0 && self.z == 0
    }

    /// Each component clamped into the `i32` range.
    pub open spec fn saturated(self) -> MathVector {
        MathVector {
            x: clamp_component(self.x),
            y: clamp_component(self.y),
            z: clamp_component(self.z),
        }
    }

    /// Whether every component lies in the `i32` range.
    pub open spec fn fits(self) -> bool {
        self.saturated() == self
    }

    /// The vector that this is the model of, when it fits.
    pub open spec fn as_vector(self) -> Vector {
        Vector { x: self.x as i32, y: self.y as i32, z: self.z as i32 }
    }
}

/// The vector of direction `m` and of length `length`, as closely as whole
/// components allow without exceeding that length: `m` is enlarged by
/// [`PRECISION`], its length is rounded up, and each component of the
/// quotient is rounded toward zero.
pub open spec fn rescaled(m: MathVector, length: int) -> MathVector {
    let w = m.scaled(PRECISION as int);
    let u = ceil_sqrt(w.norm_squared());
    w.scaled(length).quotient(u)
}

/// A vector with `i32` components.
#[derive(Clone, Copy, Debug, PartialEq, Eq, Structural)]
pub struct Vector {
    pub x: i32,
    pub y: i32,
    pub z: i32,
}

impl View for Vector {
    type V = MathVector;

    open spec fn view(&self) -> MathVector {
        MathVector { x: self.x as int, y: self.y as int, z: self.z as int }
    }
}

/// A vector is the vector of its model, and a model that fits is the model
/// of its vector.
pub proof fn lemma_as_vector(v: Vector, m: MathVector)
    ensures
        v@.as_vector() == v,
        v@.fits(),
        m.fits() ==> m.as_vector()@ == m,
        m.saturated().fits(),
{
}

/// A square is never negative, and is zero only for zero.
pub proof fn lemma_square_nonnegative(a: int)
    ensures
        a * a >= 0,
        a * a == 0 <==> a == 0,
{
    assert(a * a >= 0 && (a * a == 0 <==> a == 0)) by (nonlinear_arith);
}

/// The squared length of a vector is never negative, bounds the square of
/// each component, and is zero only for the zero vector.
pub proof fn lemma_norm_squared(m: MathVector)
    ensures
        m.norm_squared() >= 0,
        m.x * m.x <= m.norm_squared(),
        m.y * m.y <= m.norm_squared(),
        m.z * m.z <= m.norm_squared(),
        m.norm_squared() == 0 <==> m.is_zero(),
{
    lemma_square_nonnegative(m.x);
    lemma_square_nonnegative(m.y);
    lemma_square_nonnegative(m.z);
}

/// The square of an `i32`, or of a difference of two, stays well inside 128 bits.
proof fn lemma_square_bound(a: int, limit: int)
    requires
        -limit <= a <= limit,
    ensures
        0 <= a * a <= limit * limit,
{
    assert(0 <= a * a <= limit * limit) by (nonlinear_arith)
        requires
            -limit <= a <= limit,
    ;
}

/// A product is bounded by the product of the bounds of its factors.
pub proof fn lemma_product_bound(a: int, b: int, la: int, lb: int)
    requires
        -la <= a <= la,
        -lb <= b <= lb,
    ensures
        -(la * lb) <= a * b <= la * lb,
{
    assert(-(la * lb) <= a * b <= la * lb) by (nonlinear_arith)
        requires
            -la <= a <= la,
            -lb <= b <= lb,
    ;
}

impl Vector {
    /// The component along an axis.
    pub open spec fn along(self, axis: Axis) -> i32 {
        match axis {
            Axis::X => self.x,
            Axis::Y => self.y,
            Axis::Z => self.z,
        }
    }

    /// The component along an axis.
    pub fn component(&self, axis: Axis) -> (c: i32)
        ensures
            c == self.along(axis),
    {
        match axis {
            Axis::X => self.x,
            Axis::Y => self.y,
            Axis::Z => self.z,
        }
    }

    pub fn new(x: i32, y: i32, z: i32) -> (v: Vector)
        ensures
            v.x == x,
            v.y == y,
            v.z == z,
    {
        Vector { x, y, z }
    }

    pub fn zero() -> (v: Vector)
        ensures
            v@ == MathVector::zero(),
    {
        Vector { x: 0, y: 0, z: 0 }
    }

    /// The vector whose components are the given wide values, each clamped
    /// into the `i32` range.
    pub fn from_wide(x: i128, y: i128, z: i128) -> (v: Vector)
        ensures
            v@ == (MathVector { x: x as int, y: y as int, z: z as int }).saturated(),
    {
        Vector { x: saturate(x), y: saturate(y), z: saturate(z) }
    }

    pub fn is_zero(&self) -> (b: bool)
        ensures
            b == self@.is_zero(),
    {
        self.x == 0 && self.y == 0 && self.z == 0
    }

    /// Whether the vector lies in the plane `z == 0`.
    pub fn is_planar(&self) -> (b: bool)
        ensures
            b == (self.z == 0),
    {
        self.z == 0
    }

    /// Sum, clamped.
    pub fn saturating_add(self, other: Vector) -> (v: Vector)
        ensures
            v@ == self@.plus(other@).saturated(),
    {
        Vector::from_wide(
            self.x as i128 + other.x as i128,
            self.y as i128 + other.y as i128,
            self.z as i128 + other.z as i128,
        )
    }

    /// Difference, clamped.
    pub fn saturating_sub(self, other: Vector) -> (v: Vector)
        ensures
            v@ == self@.minus(other@).saturated(),
    {
        Vector::from_wide(
            self.x as i128 - other.x as i128,
            self.y as i128 - other.y as i128,
            self.z as i128 - other.z as i128,
        )
    }

    /// Product with a scalar, clamped.
    pub fn saturating_scale(self, k: i32) -> (v: Vector)
        ensures
            v@ == self@.scaled(k as int).saturated(),
    {
        proof {
            lemma_product_bound(self.x as int, k as int, 0x8000_0000, 0x8000_0000);
            lemma_product_bound(self.y as int, k as int, 0x8000_0000, 0x8000_0000);
            lemma_product_bound(self.z as int, k as int, 0x8000_0000, 0x8000_0000);
        }
        Vector::from_wide(
            self.x as i128 * k as i128,
            self.y as i128 * k as i128,
            self.z as i128 * k as i128,
        )
    }

    /// Scalar product.
    pub fn dot(self, other: Vector) -> (d: i128)
        ensures
            d == self@.dot(other@),
            -0xC000_0000_0000_0000 <= d <= 0xC000_0000_0000_0000,
    {
        proof {
            lemma_product_bound(self.x as int, other.x as int, 0x8000_0000, 0x8000_0000);
            lemma_product_bound(self.y as int, other.y as int, 0x8000_0000, 0x8000_0000);
            lemma_product_bound(self.z as int, other.z as int, 0x8000_0000, 0x8000_0000);
        }
        self.x as i128 * other.x as i128 + self.y as i128 * other.y as i128 + self.z as i128
            * other.z as i128
    }

    /// Squared length.
    pub fn length_squared(self) -> (n: u128)
        ensures
            n == self@.norm_squared(),
            n <= 0xC000_0000_0000_0000,
    {
        proof {
            lemma_square_bound(self.x as int, 0x8000_0000);
            lemma_square_bound(self.y as int, 0x8000_0000);
            lemma_square_bound(self.z as int, 0x8000_0000);
        }
        let x: i128 = self.x as i128;
        let y: i128 = self.y as i128;
        let z: i128 = self.z as i128;
        (x * x + y * y + z * z) as u128
    }

    /// Squared distance to another point.
    pub fn distance_squared(self, other: Vector) -> (n: u128)
        ensures
            n == self@.minus(other@).norm_squared(),
            n <= 0x3_0000_0000_0000_0000,
    {
        let x: i128 = self.x as i128 - other.x as i128;
        let y: i128 = self.y as i128 - other.y as i128;
        let z: i128 = self.z as i128 - other.z as i128;
        proof {
            lemma_square_bound(x as int, 0x1_0000_0000);
            lemma_square_bound(y as int, 0x1_0000_0000);
            lemma_square_bound(z as int, 0x1_0000_0000);
        }
        (x * x + y * y + z * z) as u128
    }

    /// Length, rounded down.
    pub fn length(self) -> (l: u64)
        ensures
            l == floor_sqrt(self@.norm_squared()),
            is_floor_sqrt(self@.norm_squared(), l as int),
    {
        integer_sqrt(self.length_squared())
    }

    /// Distance to another point, rounded down.
    pub fn distance(self, other: Vector) -> (l: u64)
        ensures
            l == floor_sqrt(self@.minus(other@).norm_squared()),
            is_floor_sqrt(self@.minus(other@).norm_squared(), l as int),
    {
        integer_sqrt(self.distance_squared(other))
    }
}

/// Rescales the heading `(x, y, z)` to the given length. The result never
/// exceeds that length.
pub fn rescale(x: i64, y: i64, z: i64, length: i32) -> (v: Vector)
    requires
        -HEADING_LIMIT <= x <= HEADING_LIMIT,
        -HEADING_LIMIT <= y <= HEADING_LIMIT,
        -HEADING_LIMIT <= z <= HEADING_LIMIT,
        x != 0 || y != 0 || z != 0,
        length >= 0,
    ensures
        v@ == rescaled(MathVector { x: x as int, y: y as int, z: z as int }, length as int),
        v@.norm_squared() <= length * length,
{
    let ghost m = MathVector { x: x as int, y: y as int, z: z as int };
    let ghost w = m.scaled(PRECISION as int);
    let wx: i128 = x as i128 * PRECISION as i128;
    let wy: i128 = y as i128 * PRECISION as i128;
    let wz: i128 = z as i128 * PRECISION as i128;
    proof {
        lemma_square_bound(wx as int, 0x1000_0000_0000_0000);
        lemma_square_bound(wy as int, 0x1000_0000_0000_0000);
        lemma_square_bound(wz as int, 0x1000_0000_0000_0000);
        lemma_norm_squared(w);
        assert(w.norm_squared() > 0);
    }
    let n: u128 = (wx * wx + wy * wy + wz * wz) as u128;
    let u: u128 = integer_sqrt_ceil(n);
    let s: i128 = length as i128;
    let d: i128 = u as i128;
    proof {
        lemma_component_within_length(wx as int, n as int, u as int);
        lemma_component_within_length(wy as int, n as int, u as int);
        lemma_component_within_length(wz as int, n as int, u as int);
        lemma_product_bound(wx as int, s as int, 0x1000_0000_0000_0000, 0x8000_0000);
        lemma_product_bound(wy as int, s as int, 0x1000_0000_0000_0000, 0x8000_0000);
        lemma_product_bound(wz as int, s as int, 0x1000_0000_0000_0000, 0x8000_0000);
    }
    let qx: i128 = div_toward_zero(wx * s, d);
    let qy: i128 = div_toward_zero(wy * s, d);
    let qz: i128 = div_toward_zero(wz * s, d);
    proof {
        lemma_scaled_quotient(wx as int, s as int, d as int);
        lemma_scaled_quotient(wy as int, s as int, d as int);
        lemma_scaled_quotient(wz as int, s as int, d as int);
        lemma_rescaled_norm(w, s as int, d as int);
    }
    Vector { x: qx as i32, y: qy as i32, z: qz as i32 }
}

/// A rescaled vector is no longer than the length asked for.
pub proof fn lemma_rescaled_length(m: MathVector, length: int)
    requires
        !m.is_zero(),
        length >= 0,
    ensures
        rescaled(m, length).norm_squared() <= length * length,
{
    let w = m.scaled(PRECISION as int);
    let n = w.norm_squared();
    lemma_norm_squared(m);
    lemma_norm_squared(w);
    assert(!w.is_zero()) by {
        assert(m.x != 0 ==> m.x * PRECISION != 0) by (nonlinear_arith);
        assert(m.y != 0 ==> m.y * PRECISION != 0) by (nonlinear_arith);
        assert(m.z != 0 ==> m.z * PRECISION != 0) by (nonlinear_arith);
    }
    let u = ceil_sqrt(n);
    lemma_ceil_sqrt(n);
    lemma_component_within_length(w.x, n, u);
    lemma_component_within_length(w.y, n, u);
    lemma_component_within_length(w.z, n, u);
    lemma_scaled_quotient(w.x, length, u);
    lemma_scaled_quotient(w.y, length, u);
    lemma_scaled_quotient(w.z, length, u);
    lemma_rescaled_norm(w, length, u);
}

/// How far a rescaled vector can fall short of the length asked for: its
/// squared length is at least `length * length` less `2 * length * (length /
/// PRECISION + 3)`, so its length is within `length / PRECISION + 3` of
/// `length`.
pub proof fn lemma_rescaled_shortfall(m: MathVector, length: int)
    requires
        !m.is_zero(),
        length >= 0,
    ensures
        PRECISION * rescaled(m, length).norm_squared() >= PRECISION * (length * length) - 2 * (length
            * length) - 6 * (PRECISION * length),
{
    let k = PRECISION as int;
    let s = length;
    let w = m.scaled(k);
    let n = w.norm_squared();
    let mm = m.norm_squared();
    lemma_norm_squared(m);
    lemma_norm_squared(w);
    assert(n == (k * k) * mm) by {
        lemma_square_of_product(m.x, k);
        lemma_square_of_product(m.y, k);
        lemma_square_of_product(m.z, k);
        lemma_distribute(k * k, m.x * m.x, m.y * m.y, m.z * m.z);
    }
    assert(n >= k * k) by (nonlinear_arith)
        requires
            n == (k * k) * mm,
            mm >= 1,
    ;
    let u = ceil_sqrt(n);
    lemma_ceil_sqrt(n);
    assert(u >= k) by (nonlinear_arith)
        requires
            u * u >= n,
            n >= k * k,
            u >= 0,
            k >= 0,
    ;
    assert(n >= u * u - 2 * u) by (nonlinear_arith)
        requires
            (u - 1) * (u - 1) < n,
    ;
    lemma_component_within_length(w.x, n, u);
    lemma_component_within_length(w.y, n, u);
    lemma_component_within_length(w.z, n, u);
    let tx = trunc_div(w.x * s, u);
    let ty = trunc_div(w.y * s, u);
    let tz = trunc_div(w.z * s, u);
    lemma_quotient_shortfall(w.x, s, u);
    lemma_quotient_shortfall(w.y, s, u);
    lemma_quotient_shortfall(w.z, s, u);
    let t = tx * tx + ty * ty + tz * tz;
    let uu = u * u;
    let ss = s * s;
    lemma_square_nonnegative(u);
    lemma_square_nonnegative(s);
    lemma_square_of_product(tx, u);
    lemma_square_of_product(ty, u);
    lemma_square_of_product(tz, u);
    lemma_distribute(uu, tx * tx, ty * ty, tz * tz);
    lemma_square_of_product(w.x, s);
    lemma_square_of_product(w.y, s);
    lemma_square_of_product(w.z, s);
    lemma_distribute(ss, w.x * w.x, w.y * w.y, w.z * w.z);
    assert(uu * t >= ss * n - 6 * (uu * s));
    assert(ss * n >= ss * uu - 2 * (ss * u)) by (nonlinear_arith)
        requires
            n >= uu - 2 * u,
            ss >= 0,
    ;
    assert(k * (ss * u) <= ss * uu) by (nonlinear_arith)
        requires
            k <= u,
            ss >= 0,
            u >= 0,
            uu == u * u,
    ;
    assert(uu * (k * t) >= uu * (k * ss - 2 * ss - 6 * (k * s))) by (nonlinear_arith)
        requires
            uu * t >= ss * uu - 2 * (ss * u) - 6 * (uu * s),
            k * (ss * u) <= ss * uu,
            k >= 0,
    ;
    assert(k * t >= k * ss - 2 * ss - 6 * (k * s)) by (nonlinear_arith)
        requires
            uu * (k * t) >= uu * (k * ss - 2 * ss - 6 * (k * s)),
            uu > 0,
    ;
}

/// The square of a product is the product of the squares.
pub proof fn lemma_square_of_product(a: int, b: int)
    ensures
        (a * b) * (a * b) == (b * b) * (a * a),
{
    assert((a * b) * (a * b) == (b * b) * (a * a)) by (nonlinear_arith);
}

/// A factor distributes over a sum of three.
proof fn lemma_distribute(k: int, a: int, b: int, c: int)
    ensures
        k * (a + b + c) == k * a + k * b + k * c,
{
    assert(k * (a + b + c) == k * a + k * b + k * c) by (nonlinear_arith);
}

/// Rounding a scaled component toward zero costs its square at most
/// `2 * u * u * s`.
proof fn lemma_quotient_shortfall(c: int, s: int, u: int)
    requires
        -u <= c <= u,
        u > 0,
        s >= 0,
    ensures
        (trunc_div(c * s, u) * u) * (trunc_div(c * s, u) * u) >= (c * s) * (c * s) - 2 * ((u * u)
            * s),
{
    let a = c * s;
    let q = trunc_div(a, u);
    lemma_trunc_div_bounds(a, u);
    assert(-(u * s) <= a <= u * s) by (nonlinear_arith)
        requires
            a == c * s,
            -u <= c <= u,
            s >= 0,
    ;
    let p = q * u;
    assert(p * p >= a * a - 2 * (u * (u * s))) by (nonlinear_arith)
        requires
            a >= 0 ==> 0 <= p <= a < p + u,
            a <= 0 ==> p - u < a <= p <= 0,
            -(u * s) <= a <= u * s,
            u > 0,
            s >= 0,
    ;
    assert(u * (u * s) == (u * u) * s) by (nonlinear_arith);
}

/// Rescaling keeps a planar vector planar.
pub proof fn lemma_planar_rescaled(m: MathVector, length: int)
    requires
        m.z == 0,
        !m.is_zero(),
    ensures
        rescaled(m, length).z == 0,
{
    let w = m.scaled(PRECISION as int);
    let u = ceil_sqrt(w.norm_squared());
    lemma_norm_squared(w);
    assert(!w.is_zero()) by {
        assert(m.x != 0 ==> m.x * PRECISION != 0) by (nonlinear_arith);
        assert(m.y != 0 ==> m.y * PRECISION != 0) by (nonlinear_arith);
    }
    lemma_ceil_sqrt(w.norm_squared());
    assert(w.z == 0) by (nonlinear_arith)
        requires
            w.z == m.z * PRECISION,
            m.z == 0,
    ;
    assert(w.z * length == 0) by (nonlinear_arith)
        requires
            w.z == 0,
    ;
    lemma_trunc_div_bounds(0, u);
}

/// A component is no longer than any upper bound of the vector's length.
proof fn lemma_component_within_length(c: int, n: int, u: int)
    requires
        c * c <= n,
        n <= u * u,
        u >= 0,
    ensures
        -u <= c <= u,
{
    assert(-u <= c <= u) by (nonlinear_arith)
        requires
            c * c <= u * u,
            u >= 0,
    ;
}

/// Scaling a component that is within `u` by `s / u` leaves it within `s`,
/// and its product with `u` within the exact product.
proof fn lemma_scaled_quotient(c: int, s: int, u: int)
    requires
        -u <= c <= u,
        u > 0,
        s >= 0,
    ensures
        -s <= trunc_div(c * s, u) <= s,
        trunc_div(c * s, u) * trunc_div(c * s, u) * (u * u) <= (c * c) * (s * s),
{
    let a = c * s;
    let q = trunc_div(a, u);
    lemma_trunc_div_bounds(a, u);
    assert(-(u * s) <= a <= u * s) by (nonlinear_arith)
        requires
            a == c * s,
            -u <= c <= u,
            s >= 0,
    ;
    assert(-s <= q <= s) by (nonlinear_arith)
        requires
            -(u * s) <= a <= u * s,
            u > 0,
            s >= 0,
            a >= 0 ==> 0 <= q * u <= a,
            a <= 0 ==> a <= q * u <= 0,
    ;
    assert((q * u) * (q * u) <= a * a) by (nonlinear_arith)
        requires
            a >= 0 ==> 0 <= q * u <= a,
            a <= 0 ==> a <= q * u <= 0,
    ;
    assert((q * u) * (q * u) == q * q * (u * u)) by (nonlinear_arith);
    assert(a * a == (c * c) * (s * s)) by (nonlinear_arith)
        requires
            a == c * s,
    ;
}

/// The rescaled vector is no longer than the length asked for.
proof fn lemma_rescaled_norm(w: MathVector, s: int, u: int)
    requires
        u > 0,
        s >= 0,
        w.norm_squared() <= u * u,
        trunc_div(w.x * s, u) * trunc_div(w.x * s, u) * (u * u) <= (w.x * w.x) * (s * s),
        trunc_div(w.y * s, u) * trunc_div(w.y * s, u) * (u * u) <= (w.y * w.y) * (s * s),
        trunc_div(w.z * s, u) * trunc_div(w.z * s, u) * (u * u) <= (w.z * w.z) * (s * s),
    ensures
        w.scaled(s).quotient(u).norm_squared() <= s * s,
{
    let qx = trunc_div(w.x * s, u);
    let qy = trunc_div(w.y * s, u);
    let qz = trunc_div(w.z * s, u);
    let total = qx * qx + qy * qy + qz * qz;
    let n = w.norm_squared();
    let uu = u * u;
    let ss = s * s;
    lemma_square_nonnegative(u);
    lemma_square_nonnegative(s);
    lemma_square_nonnegative(qx);
    lemma_square_nonnegative(qy);
    lemma_square_nonnegative(qz);
    assert(total * uu <= n * ss) by (nonlinear_arith)
        requires
            total == qx * qx + qy * qy + qz * qz,
            n == w.x * w.x + w.y * w.y + w.z * w.z,
            qx * qx * uu <= (w.x * w.x) * ss,
            qy * qy * uu <= (w.y * w.y) * ss,
            qz * qz * uu <= (w.z * w.z) * ss,
    ;
    assert(total <= ss) by (nonlinear_arith)
        requires
            total * uu <= n * ss,
            n <= uu,
            uu > 0,
            ss >= 0,
            total >= 0,
    ;
}

} // verus!
