//! Fixed-point 2D vectors and their mathematical model.

use vstd::prelude::*;

verus! {

/// An executable 2D vector with integer (fixed-point) components.
#[derive(Clone, Copy, PartialEq, Eq, Structural, Debug)]
pub struct Vec2i {
    pub x: i64,
    pub y: i64,
}

/// The mathematical model of a vector: unbounded integer components.
pub ghost struct Vec2Spec {
    pub x: int,
    pub y: int,
}

impl View for Vec2i {
    type V = Vec2Spec;

    open spec fn view(&self) -> Vec2Spec {
        Vec2Spec { x: self.x as int, y: self.y as int }
    }
}

impl Vec2i {
    pub fn new(x: i64, y: i64) -> (v: Vec2i)
        ensures
            v@ == (Vec2Spec { x: x as int, y: y as int }),
    {
        Vec2i { x, y }
    }

    pub fn zero() -> (v: Vec2i)
        ensures
            v@ == v_zero(),
    {
        Vec2i { x: 0, y: 0 }
    }
}

pub open spec fn v_zero() -> Vec2Spec {
    Vec2Spec { x: 0, y: 0 }
}

pub open spec fn v_add(a: Vec2Spec, b: Vec2Spec) -> Vec2Spec {
    Vec2Spec { x: a.x + b.x, y: a.y + b.y }
}

pub open spec fn v_sub(a: Vec2Spec, b: Vec2Spec) -> Vec2Spec {
    Vec2Spec { x: a.x - b.x, y: a.y - b.y }
}

pub open spec fn v_scale(a: Vec2Spec, k: int) -> Vec2Spec {
    Vec2Spec { x: a.x * k, y: a.y * k }
}

/// Squared Euclidean length.
pub open spec fn norm2(a: Vec2Spec) -> int {
    a.x * a.x + a.y * a.y
}

/// Squared distance between two points.
pub open spec fn dist2(a: Vec2Spec, b: Vec2Spec) -> int {
    norm2(v_sub(a, b))
}

/// Both components within `[-m, m]`.
pub open spec fn in_box(a: Vec2Spec, m: int) -> bool {
    -m <= a.x <= m && -m <= a.y <= m
}

/// The component `c` scaled by the ratio `l / d`, rounded toward zero.
/// This is how a vector of length about `d` is rescaled to length about `l`.
pub open spec fn scale_toward_zero(c: int, l: int, d: int) -> int {
    if c >= 0 {
        (c * l) / d
    } else {
        -(((-c) * l) / d)
    }
}

/// Rescaling keeps the sign, never exceeds `l` in magnitude when `|c| <= d`,
/// and never grows the component when `l <= d`.
pub proof fn lemma_scale_bound(c: int, l: int, d: int)
    requires
        0 < d,
        0 <= l,
        vstd::math::abs(c) <= d,
    ensures
        vstd::math::abs(scale_toward_zero(c, l, d)) <= l,
        c >= 0 ==> 0 <= scale_toward_zero(c, l, d),
        c <= 0 ==> scale_toward_zero(c, l, d) <= 0,
        l <= d ==> vstd::math::abs(scale_toward_zero(c, l, d)) <= vstd::math::abs(c),
        0 <= vstd::math::abs(c) * l / d <= l,
{
    let a = vstd::math::abs(c) as int;
    assert(0 <= a * l) by (nonlinear_arith)
        requires
            0 <= a,
            0 <= l,
    ;
    vstd::arithmetic::mul::lemma_mul_inequality(a, d, l);
    vstd::arithmetic::div_mod::lemma_div_is_ordered(0, a * l, d);
    vstd::arithmetic::div_mod::lemma_div_is_ordered(a * l, d * l, d);
    vstd::arithmetic::div_mod::lemma_div_multiples_vanish(l, d);
    if l <= d {
        vstd::arithmetic::mul::lemma_mul_inequality(l, d, a);
        assert(a * l == l * a) by (nonlinear_arith);
        assert(d * a == a * d) by (nonlinear_arith);
        vstd::arithmetic::div_mod::lemma_div_is_ordered(a * l, a * d, d);
        vstd::arithmetic::div_mod::lemma_div_multiples_vanish(a, d);
        assert(a * d == d * a) by (nonlinear_arith);
    }
    vstd::arithmetic::div_mod::lemma_div_basics(d);
    vstd::arithmetic::mul::lemma_mul_basics(l);
    if c >= 0 {
        assert(a == c);
    } else {
        assert(a == -c);
    }
}

/// A component of a vector is never longer than the vector: from
/// `c * c <= d2 < (d + 1) * (d + 1)` follows `|c| <= d`.
pub proof fn lemma_component_le_root(c: int, d2: int, d: int)
    requires
        c * c <= d2,
        0 <= d,
        d2 < (d + 1) * (d + 1),
    ensures
        vstd::math::abs(c) <= d,
{
    assert(vstd::math::abs(c) <= d) by (nonlinear_arith)
        requires
            c * c <= d2,
            0 <= d,
            d2 < (d + 1) * (d + 1),
    ;
}

/// Executable form of `scale_toward_zero`, computed with unsigned division.
pub fn scale_component(c: i64, l: i64, d: i64) -> (r: i64)
    requires
        0 < d,
        0 <= l,
        vstd::math::abs(c as int) * l / (d as int) <= i64::MAX,
    ensures
        r as int == scale_toward_zero(c as int, l as int, d as int),
{
    let cw: i128 = c as i128;
    let mag: u128 = if cw >= 0 {
        cw as u128
    } else {
        (-cw) as u128
    };
    assert(mag == vstd::math::abs(c as int));
    assert(mag * (l as u128) <= u128::MAX) by (nonlinear_arith)
        requires
            mag <= i64::MAX as u128 + 1,
            0 <= l <= i64::MAX,
    ;
    let q: u128 = (mag * (l as u128)) / (d as u128);
    assert(q == vstd::math::abs(c as int) * l / (d as int));
    if c >= 0 {
        q as i64
    } else {
        proof {
            vstd::arithmetic::div_mod::lemma_div_is_ordered(
                0,
                vstd::math::abs(c as int) * l,
                d as int,
            );
            assert(0 <= vstd::math::abs(c as int) * l) by (nonlinear_arith)
                requires
                    0 <= l,
            ;
        }
        -(q as i64)
    }
}

} // verus!
