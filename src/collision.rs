//! Sphere overlap tests with closed-interval semantics.
use vstd::prelude::*;

use crate::body::Body;

verus! {

pub open spec fn sq(a: int) -> int {
    a * a
}

/// A probe sphere at `(x, y, z)` of radius `r` touches or overlaps `b`:
/// the squared distance of the centres is at most the squared sum of the
/// radii. A negative probe radius touches nothing.
pub open spec fn touches(b: Body, x: int, y: int, z: int, r: int) -> bool {
    r >= 0 && sq(x - b.position.x) + sq(y - b.position.y) + sq(z - b.position.z) <= sq(
        r + b.radius,
    )
}

/// Some live, active body of the store touches the probe.
pub open spec fn probe_hits(s: Seq<Option<Body>>, x: int, y: int, z: int, r: int) -> bool {
    exists|i: int|
        0 <= i < s.len() && (#[trigger] s[i]) is Some && s[i]->0.active && touches(
            s[i]->0,
            x,
            y,
            z,
            r,
        )
}

proof fn lemma_sq_mono(a: int, b: int)
    requires
        0 <= a <= b,
    ensures
        sq(a) <= sq(b),
{
    assert(a * a <= b * b) by (nonlinear_arith)
        requires
            0 <= a <= b,
    ;
}

proof fn lemma_sq_nonneg(a: int)
    ensures
        sq(a) >= 0,
        sq(a) == sq(-a),
{
    assert(a * a >= 0) by (nonlinear_arith);
    assert(a * a == (-a) * (-a)) by (nonlinear_arith);
}

/// The magnitude of a difference of two 64-bit integers.
fn abs_diff(a: i64, b: i64) -> (r: u128)
    ensures
        r as int == a - b || r as int == b - a,
        r >= 0,
        r as int >= a - b,
        r as int >= b - a,
        sq(r as int) == sq(a - b),
        r < 0x1_0000_0000_0000_0000,
{
    proof {
        lemma_sq_nonneg(a - b);
    }
    let d: i128 = a as i128 - b as i128;
    if d < 0 {
        (-d) as u128
    } else {
        d as u128
    }
}

/// Whether a probe sphere touches one body.
pub fn touches_body(b: &Body, x: i64, y: i64, z: i64, r: i64) -> (hit: bool)
    requires
        b.radius > 0,
    ensures
        hit == touches(*b, x as int, y as int, z as int, r as int),
{
    if r < 0 {
        return false;
    }
    let reach: u128 = r as u128 + b.radius as u128;
    let ax = abs_diff(x, b.position.x);
    let ay = abs_diff(y, b.position.y);
    let az = abs_diff(z, b.position.z);
    proof {
        lemma_sq_nonneg(x - b.position.x);
        lemma_sq_nonneg(y - b.position.y);
        lemma_sq_nonneg(z - b.position.z);
    }
    if ax > reach || ay > reach || az > reach {
        proof {
            if ax > reach {
                lemma_sq_mono(reach as int, ax as int);
                assert(sq(reach as int) < sq(ax as int)) by (nonlinear_arith)
                    requires
                        0 <= reach < ax,
                ;
            } else if ay > reach {
                assert(sq(reach as int) < sq(ay as int)) by (nonlinear_arith)
                    requires
                        0 <= reach < ay,
                ;
            } else {
                assert(sq(reach as int) < sq(az as int)) by (nonlinear_arith)
                    requires
                        0 <= reach < az,
                ;
            }
        }
        return false;
    }
    proof {
        lemma_sq_mono(ax as int, reach as int);
        lemma_sq_mono(ay as int, reach as int);
        lemma_sq_mono(az as int, reach as int);
        assert(sq(reach as int) < 0x1_0000_0000_0000_0000_0000_0000_0000_0000) by (nonlinear_arith)
            requires
                reach < 0x1_0000_0000_0000_0000,
        ;
    }
    let reach2: u128 = reach * reach;
    let rest: u128 = reach2 - ax * ax;
    let sy: u128 = ay * ay;
    if sy > rest {
        return false;
    }
    let rest2: u128 = rest - sy;
    az * az <= rest2
}

} // verus!
