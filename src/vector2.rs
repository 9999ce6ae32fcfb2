//! Two-dimensional integer vectors.

use crate::text::{append_signed, signed_decimal};
use vstd::prelude::*;

verus! {

/// Integer division rounding toward zero, as Rust's `/` does.
pub open spec fn trunc_div(a: int, d: int) -> int {
    let q: int = (if a < 0 {
        -a
    } else {
        a
    }) / (if d < 0 {
        -d
    } else {
        d
    });
    if (a < 0) != (d < 0) {
        -q
    } else {
        q
    }
}

proof fn lemma_checked_div(a: i32, d: i32)
    requires
        d != 0,
        !(d == -1 && a == i32::MIN),
    ensures
        a.checked_div(d) == Some(trunc_div(a as int, d as int) as i32),
{
    let n: int = if a < 0 {
        -a
    } else {
        a as int
    };
    let m: int = if d < 0 {
        -d
    } else {
        d as int
    };
    assert(n / m <= n) by (nonlinear_arith)
        requires
            n >= 0,
            m >= 1,
    ;
    assert(n / m >= 0) by (nonlinear_arith)
        requires
            n >= 0,
            m >= 1,
    ;
    assert(m >= 2 && n >= 1 ==> n / m < n) by (nonlinear_arith)
        requires
            n >= 0,
            m >= 1,
    ;
    if m == 1 {
        assert(n / m == n) by (nonlinear_arith)
            requires
                m == 1,
        ;
    }
    if n == 0 {
        assert(n / m == 0) by (nonlinear_arith)
            requires
                n == 0,
                m >= 1,
        ;
    }
    let q = n / m;
    let x = a as int;
    let dd = d as int;
    if x == 0 {
        assert(trunc_div(x, dd) == 0);
    } else if x > 0 && dd > 0 {
        assert(trunc_div(x, dd) == x / dd);
    } else if x < 0 && dd < 0 {
        assert(trunc_div(x, dd) == (x * -1) / (dd * -1));
    } else if x < 0 {
        assert(trunc_div(x, dd) == ((x * -1) / dd) * -1);
    } else {
        assert(trunc_div(x, dd) == (x / (dd * -1)) * -1);
    }
}

/// A two-dimensional integer vector, used for positions and movement deltas.
///
/// Addition, subtraction and multiplication wrap around on overflow;
/// division by zero is ruled out by its precondition.
#[derive(Debug, Clone, Copy, PartialEq, Eq, Structural)]
pub struct Vector2 {
    pub x: i32,
    pub y: i32,
}

impl Vector2 {
    pub open spec fn sum(self, o: Vector2) -> Vector2 {
        Vector2 { x: self.x.wrapping_add(o.x), y: self.y.wrapping_add(o.y) }
    }

    pub open spec fn difference(self, o: Vector2) -> Vector2 {
        Vector2 { x: self.x.wrapping_sub(o.x), y: self.y.wrapping_sub(o.y) }
    }

    pub open spec fn scaled(self, k: i32) -> Vector2 {
        Vector2 { x: self.x.wrapping_mul(k), y: self.y.wrapping_mul(k) }
    }

    /// The dot product, wrapped to `i32`.
    pub open spec fn dot(self, o: Vector2) -> i32 {
        self.x.wrapping_mul(o.x).wrapping_add(self.y.wrapping_mul(o.y))
    }

    /// `k` divides both components without a division by zero or an overflow.
    pub open spec fn divisible_by(self, k: i32) -> bool {
        k != 0 && !(k == -1 && (self.x == i32::MIN || self.y == i32::MIN))
    }

    pub open spec fn quotient(self, k: i32) -> Vector2 {
        Vector2 {
            x: trunc_div(self.x as int, k as int) as i32,
            y: trunc_div(self.y as int, k as int) as i32,
        }
    }

    /// Makes the vector `(x, y)`.
    pub fn new(x: i32, y: i32) -> (r: Vector2)
        ensures
            r.x == x,
            r.y == y,
    {
        Vector2 { x, y }
    }

    pub fn get_x(&self) -> (r: i32)
        ensures
            r == self.x,
    {
        self.x
    }

    pub fn get_y(&self) -> (r: i32)
        ensures
            r == self.y,
    {
        self.y
    }

    /// Replaces both components.
    pub fn set(&mut self, x: i32, y: i32)
        ensures
            final(self).x == x,
            final(self).y == y,
    {
        self.x = x;
        self.y = y;
    }

    /// The form `(x,y)`, each component in decimal.
    pub fn to_string(&self) -> (r: String)
        ensures
            r@ == seq!['('] + signed_decimal(self.x as int) + seq![','] + signed_decimal(
                self.y as int,
            ) + seq![')'],
    {
        let mut out = String::new();
        out.append("(");
        append_signed(&mut out, self.x as i64);
        out.append(",");
        append_signed(&mut out, self.y as i64);
        out.append(")");
        proof {
            reveal_strlit("(");
            reveal_strlit(",");
            reveal_strlit(")");
            assert(out@ =~= seq!['('] + signed_decimal(self.x as int) + seq![','] + signed_decimal(
                self.y as int,
            ) + seq![')']);
        }
        out
    }
}

impl core::ops::Add for Vector2 {
    type Output = Vector2;

    fn add(self, o: Vector2) -> (r: Vector2) {
        Vector2 { x: self.x.wrapping_add(o.x), y: self.y.wrapping_add(o.y) }
    }
}

impl vstd::std_specs::ops::AddSpecImpl for Vector2 {
    open spec fn obeys_add_spec() -> bool {
        true
    }

    open spec fn add_req(self, o: Vector2) -> bool {
        true
    }

    open spec fn add_spec(self, o: Vector2) -> Vector2 {
        self.sum(o)
    }
}

impl core::ops::AddAssign for Vector2 {
    fn add_assign(&mut self, o: Vector2)
        ensures
            *final(self) == old(self).sum(o),
    {
        *self = *self + o;
    }
}

impl core::ops::Sub for Vector2 {
    type Output = Vector2;

    fn sub(self, o: Vector2) -> (r: Vector2) {
        Vector2 { x: self.x.wrapping_sub(o.x), y: self.y.wrapping_sub(o.y) }
    }
}

impl vstd::std_specs::ops::SubSpecImpl for Vector2 {
    open spec fn obeys_sub_spec() -> bool {
        true
    }

    open spec fn sub_req(self, o: Vector2) -> bool {
        true
    }

    open spec fn sub_spec(self, o: Vector2) -> Vector2 {
        self.difference(o)
    }
}

impl core::ops::SubAssign for Vector2 {
    fn sub_assign(&mut self, o: Vector2)
        ensures
            *final(self) == old(self).difference(o),
    {
        *self = *self - o;
    }
}

/// The dot product.
impl core::ops::Mul<Vector2> for Vector2 {
    type Output = i32;

    fn mul(self, o: Vector2) -> (r: i32) {
        self.x.wrapping_mul(o.x).wrapping_add(self.y.wrapping_mul(o.y))
    }
}

impl vstd::std_specs::ops::MulSpecImpl<Vector2> for Vector2 {
    open spec fn obeys_mul_spec() -> bool {
        true
    }

    open spec fn mul_req(self, o: Vector2) -> bool {
        true
    }

    open spec fn mul_spec(self, o: Vector2) -> i32 {
        self.dot(o)
    }
}

/// Scalar multiplication.
impl core::ops::Mul<i32> for Vector2 {
    type Output = Vector2;

    fn mul(self, k: i32) -> (r: Vector2) {
        Vector2 { x: self.x.wrapping_mul(k), y: self.y.wrapping_mul(k) }
    }
}

impl vstd::std_specs::ops::MulSpecImpl<i32> for Vector2 {
    open spec fn obeys_mul_spec() -> bool {
        true
    }

    open spec fn mul_req(self, k: i32) -> bool {
        true
    }

    open spec fn mul_spec(self, k: i32) -> Vector2 {
        self.scaled(k)
    }
}

impl core::ops::MulAssign<i32> for Vector2 {
    fn mul_assign(&mut self, k: i32)
        ensures
            *final(self) == old(self).scaled(k),
    {
        *self = *self * k;
    }
}

/// Scalar division, rounding toward zero.
impl core::ops::Div<i32> for Vector2 {
    type Output = Vector2;

    fn div(self, k: i32) -> (r: Vector2) {
        proof {
            lemma_checked_div(self.x, k);
            lemma_checked_div(self.y, k);
        }
        let x = match self.x.checked_div(k) {
            Some(q) => q,
            None => 0,
        };
        let y = match self.y.checked_div(k) {
            Some(q) => q,
            None => 0,
        };
        Vector2 { x, y }
    }
}

impl vstd::std_specs::ops::DivSpecImpl<i32> for Vector2 {
    open spec fn obeys_div_spec() -> bool {
        true
    }

    open spec fn div_req(self, k: i32) -> bool {
        self.divisible_by(k)
    }

    open spec fn div_spec(self, k: i32) -> Vector2 {
        self.quotient(k)
    }
}

impl core::ops::DivAssign<i32> for Vector2 {
    fn div_assign(&mut self, k: i32)
        requires
            old(self).divisible_by(k),
        ensures
            *final(self) == old(self).quotient(k),
    {
        *self = *self / k;
    }
}

} // verus!
