//! Vectors of three fixed-point components, which also serve as points and as colours.

use crate::fixed::{
    floor_sqrt, floor_sqrt_u128, fx_add, fx_div, fx_mul, fx_sub, lemma_floor_sqrt_bound,
    lemma_div_by_larger, lemma_floor_sqrt_at_least, lemma_floor_sqrt_is, lemma_mul_of_fractions,
    lemma_product_bound, quot, saturate, Fixed, LIMIT, SCALE,
};
use vstd::prelude::*;

verus! {

/// The mathematical view of a [`Vec3`]: three raw values.
pub struct V3 {
    pub x: int,
    pub y: int,
    pub z: int,
}

impl V3 {
    /// Whether every component lies within `LIMIT`, as those of every [`Vec3`] do.
    pub open spec fn in_range(self) -> bool {
        &&& -LIMIT <= self.x <= LIMIT
        &&& -LIMIT <= self.y <= LIMIT
        &&& -LIMIT <= self.z <= LIMIT
    }

    /// Whether every component lies in `[0, 1]`.
    pub open spec fn is_shade(self) -> bool {
        &&& 0 <= self.x <= SCALE
        &&& 0 <= self.y <= SCALE
        &&& 0 <= self.z <= SCALE
    }

    /// The vector whose components are all zero.
    pub open spec fn zero() -> V3 {
        V3 { x: 0, y: 0, z: 0 }
    }

    /// The sum, component by component.
    pub open spec fn add(self, o: V3) -> V3 {
        V3 { x: fx_add(self.x, o.x), y: fx_add(self.y, o.y), z: fx_add(self.z, o.z) }
    }

    /// The difference, component by component.
    pub open spec fn sub(self, o: V3) -> V3 {
        V3 { x: fx_sub(self.x, o.x), y: fx_sub(self.y, o.y), z: fx_sub(self.z, o.z) }
    }

    /// The opposite vector.
    pub open spec fn neg(self) -> V3 {
        V3 { x: -self.x, y: -self.y, z: -self.z }
    }

    /// Every component times the raw scalar `k`.
    pub open spec fn scale(self, k: int) -> V3 {
        V3 { x: fx_mul(self.x, k), y: fx_mul(self.y, k), z: fx_mul(self.z, k) }
    }

    /// Every component divided by the raw scalar `k`.
    pub open spec fn div(self, k: int) -> V3 {
        V3 { x: fx_div(self.x, k), y: fx_div(self.y, k), z: fx_div(self.z, k) }
    }

    /// The component-wise product.
    pub open spec fn mul(self, o: V3) -> V3 {
        V3 { x: fx_mul(self.x, o.x), y: fx_mul(self.y, o.y), z: fx_mul(self.z, o.z) }
    }

    /// The sum of the three products of raw components, before any rounding.
    pub open spec fn dot_wide(self, o: V3) -> int {
        self.x * o.x + self.y * o.y + self.z * o.z
    }

    /// The dot product: the exact sum of products, rounded once.
    pub open spec fn dot(self, o: V3) -> int {
        saturate(quot(self.dot_wide(o), SCALE as int))
    }

    /// The squared length: the dot product of the vector with itself.
    pub open spec fn length_squared(self) -> int {
        self.dot(self)
    }

    /// The Euclidean length: the floor square root of the exact sum of squares.
    pub open spec fn length(self) -> int {
        saturate(floor_sqrt(self.dot_wide(self)))
    }

    /// The vector divided by its length. The zero vector is its own unit vector.
    pub open spec fn unit_vector(self) -> V3 {
        self.div(self.length())
    }

    /// Whether the squared length rounds to zero, so that the vector gives no direction.
    pub open spec fn is_degenerate(self) -> bool {
        self.length_squared() == 0
    }

    /// The mirror image of `self` about the plane whose normal is `n`: `self - 2 (self . n) n`.
    pub open spec fn reflect(self, n: V3) -> V3 {
        self.sub(n.scale(fx_mul(2 * SCALE, self.dot(n))))
    }
}

/// A vector, a point or a colour of three fixed-point components.
#[derive(Clone, Copy, Debug, PartialEq, Eq, Structural)]
pub struct Vec3 {
    pub x: Fixed,
    pub y: Fixed,
    pub z: Fixed,
}

impl View for Vec3 {
    type V = V3;

    open spec fn view(&self) -> V3 {
        V3 { x: self.x@, y: self.y@, z: self.z@ }
    }
}

/// Two vectors with the same view are the same vector.
pub proof fn lemma_vec3_view_injective(a: Vec3, b: Vec3)
    ensures
        a@ == b@ <==> a == b,
{
    Fixed::lemma_view_injective(a.x, b.x);
    Fixed::lemma_view_injective(a.y, b.y);
    Fixed::lemma_view_injective(a.z, b.z);
}

/// A squared length is never negative.
pub proof fn lemma_length_squared_not_negative(v: V3)
    ensures
        v.length_squared() >= 0,
{
    assert(v.dot_wide(v) >= 0) by (nonlinear_arith);
}

/// No component of a unit vector exceeds one in magnitude.
pub proof fn lemma_unit_vector_bound(v: V3)
    requires
        v.in_range(),
    ensures
        -SCALE <= v.unit_vector().x <= SCALE,
        -SCALE <= v.unit_vector().y <= SCALE,
        -SCALE <= v.unit_vector().z <= SCALE,
{
    let n = v.dot_wide(v);
    let mx: int = if v.x >= 0 { v.x } else { -v.x };
    let my: int = if v.y >= 0 { v.y } else { -v.y };
    let mz: int = if v.z >= 0 { v.z } else { -v.z };
    assert(mx * mx <= n && my * my <= n && mz * mz <= n) by (nonlinear_arith)
        requires
            n == v.x * v.x + v.y * v.y + v.z * v.z,
            mx == v.x || mx == -v.x,
            my == v.y || my == -v.y,
            mz == v.z || mz == -v.z,
    ;
    lemma_floor_sqrt_at_least(n, mx);
    lemma_floor_sqrt_at_least(n, my);
    lemma_floor_sqrt_at_least(n, mz);
    lemma_div_by_larger(v.x, v.length());
    lemma_div_by_larger(v.y, v.length());
    lemma_div_by_larger(v.z, v.length());
}

/// A shade attenuated by a shade is a shade.
pub proof fn lemma_mul_of_shades(a: V3, b: V3)
    requires
        a.is_shade(),
        b.is_shade(),
    ensures
        a.mul(b).is_shade(),
{
    lemma_mul_of_fractions(a.x, b.x);
    lemma_mul_of_fractions(a.y, b.y);
    lemma_mul_of_fractions(a.z, b.z);
}

/// The unit vector of a vector along the y axis is the axis' own unit vector, up or down.
pub proof fn lemma_unit_vector_of_vertical(v: V3)
    requires
        v.x == 0,
        v.z == 0,
        -LIMIT <= v.y <= LIMIT,
        v.y != 0,
    ensures
        v.unit_vector() == (V3 { x: 0, y: if v.y > 0 { SCALE as int } else { -SCALE }, z: 0 }),
{
    let m: int = if v.y > 0 { v.y } else { -v.y };
    assert(v.dot_wide(v) == m * m && (m + 1) * (m + 1) > m * m) by (nonlinear_arith)
        requires
            v.x == 0,
            v.z == 0,
            m == v.y || m == -v.y,
            m > 0,
    ;
    lemma_floor_sqrt_is(v.dot_wide(v), m);
    vstd::arithmetic::div_mod::lemma_div_multiples_vanish(SCALE as int, m);
    assert(m * SCALE == SCALE * m) by (nonlinear_arith);
    assert(v.y * SCALE == m * SCALE || v.y * SCALE == -(m * SCALE)) by (nonlinear_arith)
        requires
            m == v.y || m == -v.y,
    ;
}

impl Vec3 {
    /// The vector of the given components.
    pub fn new(x: Fixed, y: Fixed, z: Fixed) -> (v: Vec3)
        ensures
            v.x == x,
            v.y == y,
            v.z == z,
    {
        Vec3 { x, y, z }
    }

    /// The vector whose components are all zero.
    pub fn zero() -> (v: Vec3)
        ensures
            v@ == V3::zero(),
    {
        Vec3 { x: Fixed::from_raw(0), y: Fixed::from_raw(0), z: Fixed::from_raw(0) }
    }

    /// The sum, component by component.
    pub fn add(self, rhs: Vec3) -> (v: Vec3)
        ensures
            v@ == self@.add(rhs@),
    {
        Vec3 { x: self.x.add(rhs.x), y: self.y.add(rhs.y), z: self.z.add(rhs.z) }
    }

    /// The difference, component by component.
    pub fn sub(self, rhs: Vec3) -> (v: Vec3)
        ensures
            v@ == self@.sub(rhs@),
    {
        Vec3 { x: self.x.sub(rhs.x), y: self.y.sub(rhs.y), z: self.z.sub(rhs.z) }
    }

    /// The opposite vector.
    pub fn neg(self) -> (v: Vec3)
        ensures
            v@ == self@.neg(),
    {
        Vec3 { x: self.x.neg(), y: self.y.neg(), z: self.z.neg() }
    }

    /// Every component times `k`.
    pub fn scale(self, k: Fixed) -> (v: Vec3)
        ensures
            v@ == self@.scale(k@),
    {
        Vec3 { x: self.x.mul(k), y: self.y.mul(k), z: self.z.mul(k) }
    }

    /// Every component divided by `k`.
    pub fn div(self, k: Fixed) -> (v: Vec3)
        ensures
            v@ == self@.div(k@),
    {
        Vec3 { x: self.x.div(k), y: self.y.div(k), z: self.z.div(k) }
    }

    /// The component-wise product, by which one colour attenuates another.
    pub fn mul(self, rhs: Vec3) -> (v: Vec3)
        ensures
            v@ == self@.mul(rhs@),
    {
        Vec3 { x: self.x.mul(rhs.x), y: self.y.mul(rhs.y), z: self.z.mul(rhs.z) }
    }

    fn dot_wide(self, rhs: Vec3) -> (s: i128)
        ensures
            s == self@.dot_wide(rhs@),
            -3 * (LIMIT * LIMIT) <= s <= 3 * (LIMIT * LIMIT),
    {
        let ax: i128 = self.x.raw() as i128;
        let ay: i128 = self.y.raw() as i128;
        let az: i128 = self.z.raw() as i128;
        let bx: i128 = rhs.x.raw() as i128;
        let by: i128 = rhs.y.raw() as i128;
        let bz: i128 = rhs.z.raw() as i128;
        proof {
            lemma_product_bound(ax as int, bx as int);
            lemma_product_bound(ay as int, by as int);
            lemma_product_bound(az as int, bz as int);
        }
        ax * bx + ay * by + az * bz
    }

    /// The dot product. The three products are summed exactly and rounded once.
    pub fn dot(self, rhs: Vec3) -> (d: Fixed)
        ensures
            d@ == self@.dot(rhs@),
    {
        Fixed::from_wide(self.dot_wide(rhs) / 1_000_000)
    }

    /// The squared length.
    pub fn length_squared(self) -> (d: Fixed)
        ensures
            d@ == self@.length_squared(),
    {
        self.dot(self)
    }

    /// The length, rounded down from the exact sum of squares.
    pub fn length(self) -> (d: Fixed)
        ensures
            d@ == self@.length(),
    {
        let s: i128 = self.dot_wide(self);
        assert(s >= 0) by (nonlinear_arith)
            requires
                s == self@.x * self@.x + self@.y * self@.y + self@.z * self@.z,
        ;
        let root: u128 = floor_sqrt_u128(s as u128);
        proof {
            lemma_floor_sqrt_bound(s as int, 2 * LIMIT);
        }
        Fixed::from_wide(root as i128)
    }

    /// The vector divided by its length. The zero vector is returned as it is.
    pub fn unit_vector(self) -> (v: Vec3)
        ensures
            v@ == self@.unit_vector(),
    {
        self.div(self.length())
    }

    /// Whether the squared length rounds to zero, so that the vector gives no direction.
    pub fn is_degenerate(self) -> (b: bool)
        ensures
            b == self@.is_degenerate(),
    {
        self.length_squared().raw() == 0
    }

    /// The mirror image of the vector about the plane whose normal is `n`.
    pub fn reflect(self, n: Vec3) -> (v: Vec3)
        ensures
            v@ == self@.reflect(n@),
    {
        self.sub(n.scale(Fixed::from_int(2).mul(self.dot(n))))
    }
}

} // verus!
