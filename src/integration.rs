//! Explicit Euler integration under gravity, split into sub-steps.
use vstd::prelude::*;

use crate::body::{Body, Vec3};
use vstd::arithmetic::div_mod::lemma_fundamental_div_mod;

verus! {

pub open spec fn in_i64(v: int) -> bool {
    i64::MIN <= v <= i64::MAX
}

/// Velocity on one axis after a sub-step of `dt`: `v + g * dt`.
pub open spec fn next_vel(v: int, g: int, dt: int) -> int {
    v + g * dt
}

/// Position on one axis after a sub-step of `dt`, moved by the new velocity.
pub open spec fn next_pos(p: int, v: int, g: int, dt: int) -> int {
    p + next_vel(v, g, dt) * dt
}

pub open spec fn axis_fits(p: int, v: int, g: int, dt: int) -> bool {
    in_i64(next_vel(v, g, dt)) && in_i64(next_pos(p, v, g, dt))
}

/// The new position and velocity of `b` stay within 64-bit range.
pub open spec fn body_fits(b: Body, g: Vec3, dt: int) -> bool {
    &&& axis_fits(b.position.x as int, b.velocity.x as int, g.x as int, dt)
    &&& axis_fits(b.position.y as int, b.velocity.y as int, g.y as int, dt)
    &&& axis_fits(b.position.z as int, b.velocity.z as int, g.z as int, dt)
}

/// `b` after one sub-step: velocity first, then position from the new velocity.
pub open spec fn stepped_body(b: Body, g: Vec3, dt: int) -> Body {
    Body {
        position: Vec3 {
            x: next_pos(b.position.x as int, b.velocity.x as int, g.x as int, dt) as i64,
            y: next_pos(b.position.y as int, b.velocity.y as int, g.y as int, dt) as i64,
            z: next_pos(b.position.z as int, b.velocity.z as int, g.z as int, dt) as i64,
        },
        velocity: Vec3 {
            x: next_vel(b.velocity.x as int, g.x as int, dt) as i64,
            y: next_vel(b.velocity.y as int, g.y as int, dt) as i64,
            z: next_vel(b.velocity.z as int, g.z as int, dt) as i64,
        },
        ..b
    }
}

pub open spec fn slot_fits(o: Option<Body>, g: Vec3, dt: int) -> bool {
    match o {
        Some(b) => b.movable() ==> body_fits(b, g, dt),
        None => true,
    }
}

/// A slot after one sub-step: only active, non-static bodies move.
pub open spec fn stepped_slot(o: Option<Body>, g: Vec3, dt: int) -> Option<Body> {
    match o {
        Some(b) => if b.movable() {
            Some(stepped_body(b, g, dt))
        } else {
            Some(b)
        },
        None => None,
    }
}

pub open spec fn step_fits(s: Seq<Option<Body>>, g: Vec3, dt: int) -> bool {
    forall|i: int| 0 <= i < s.len() ==> slot_fits(#[trigger] s[i], g, dt)
}

/// One sub-step over the whole store, or `None` where a value would leave
/// the 64-bit range.
pub open spec fn step(s: Seq<Option<Body>>, g: Vec3, dt: int) -> Option<Seq<Option<Body>>> {
    if step_fits(s, g, dt) {
        Some(s.map_values(|o: Option<Body>| stepped_slot(o, g, dt)))
    } else {
        None
    }
}

/// How many sub-steps a step of `dt` takes: one, or as many as make each
/// no longer than the cap.
pub open spec fn substep_count(dt: int, cap: Option<i64>) -> int {
    match cap {
        Some(m) => if dt > m {
            dt / (m as int) + if dt % (m as int) == 0 {
                0int
            } else {
                1int
            }
        } else {
            1
        },
        None => 1,
    }
}

/// Length of sub-step `k`: the step is split as evenly as whole milliseconds
/// allow, the longer ones first.
pub open spec fn substep(dt: int, cap: Option<i64>, k: int) -> int {
    let n = substep_count(dt, cap);
    if k < dt % n {
        dt / n + 1
    } else {
        dt / n
    }
}

pub open spec fn substeps(dt: int, cap: Option<i64>) -> Seq<int> {
    Seq::new(substep_count(dt, cap) as nat, |k: int| substep(dt, cap, k))
}

/// The sub-steps applied in order, or `None` as soon as one leaves range.
pub open spec fn run(s: Seq<Option<Body>>, g: Vec3, steps: Seq<int>) -> Option<Seq<Option<Body>>>
    decreases steps.len(),
{
    if steps.len() == 0 {
        Some(s)
    } else {
        match run(s, g, steps.drop_last()) {
            Some(t) => step(t, g, steps.last()),
            None => None,
        }
    }
}

/// The store after a step of `dt >= 0` under gravity `g` and sub-step cap `cap`.
pub open spec fn advanced(s: Seq<Option<Body>>, g: Vec3, cap: Option<i64>, dt: int) -> Option<
    Seq<Option<Body>>,
> {
    run(s, g, substeps(dt, cap))
}

/// `t` keeps every body of `s` in its slot with the same identity, size,
/// mass and activity; only positions and velocities may differ.
pub open spec fn same_shape(s: Seq<Option<Body>>, t: Seq<Option<Body>>) -> bool {
    &&& s.len() == t.len()
    &&& forall|i: int|
        0 <= i < s.len() ==> (#[trigger] t[i] is Some) == (s[i] is Some) && (t[i] is Some ==> {
            let a = s[i]->0;
            let b = t[i]->0;
            a.id == b.id && a.radius == b.radius && a.mass == b.mass && a.active == b.active
        })
}

pub proof fn lemma_step_shape(s: Seq<Option<Body>>, g: Vec3, dt: int)
    requires
        step(s, g, dt) is Some,
    ensures
        same_shape(s, step(s, g, dt)->0),
{
}

pub proof fn lemma_run_shape(s: Seq<Option<Body>>, g: Vec3, steps: Seq<int>)
    requires
        run(s, g, steps) is Some,
    ensures
        same_shape(s, run(s, g, steps)->0),
    decreases steps.len(),
{
    if steps.len() > 0 {
        let t = run(s, g, steps.drop_last())->0;
        lemma_run_shape(s, g, steps.drop_last());
        lemma_step_shape(t, g, steps.last());
    }
}

/// Once a prefix of the sub-steps leaves range, every longer prefix does.
pub proof fn lemma_run_none_extends(s: Seq<Option<Body>>, g: Vec3, steps: Seq<int>, k: int, j: int)
    requires
        0 <= k <= j <= steps.len(),
        run(s, g, steps.take(k)) is None,
    ensures
        run(s, g, steps.take(j)) is None,
    decreases j - k,
{
    if j > k {
        lemma_run_none_extends(s, g, steps, k, j - 1);
        assert(steps.take(j).drop_last() =~= steps.take(j - 1));
    }
}

proof fn lemma_mul_bound(a: int, b: int)
    requires
        -0x8000_0000_0000_0000 <= a <= 0x8000_0000_0000_0000,
        0 <= b <= 0x8000_0000_0000_0000,
    ensures
        -0x4000_0000_0000_0000_0000_0000_0000_0000 <= a * b <= 0x4000_0000_0000_0000_0000_0000_0000_0000,
{
    assert(-0x8000_0000_0000_0000 * b <= a * b <= 0x8000_0000_0000_0000 * b) by (nonlinear_arith)
        requires
            -0x8000_0000_0000_0000 <= a <= 0x8000_0000_0000_0000,
            0 <= b,
    ;
    assert(0x8000_0000_0000_0000 * b <= 0x4000_0000_0000_0000_0000_0000_0000_0000) by (
    nonlinear_arith)
        requires
            0 <= b <= 0x8000_0000_0000_0000,
    ;
}

/// One axis of one sub-step, or `None` where it leaves range.
fn advance_axis(p: i64, v: i64, g: i64, dt: i64) -> (r: Option<(i64, i64)>)
    requires
        dt >= 0,
    ensures
        match r {
            Some((np, nv)) => axis_fits(p as int, v as int, g as int, dt as int) && np as int
                == next_pos(p as int, v as int, g as int, dt as int) && nv as int == next_vel(
                v as int,
                g as int,
                dt as int,
            ),
            None => !axis_fits(p as int, v as int, g as int, dt as int),
        },
{
    proof {
        lemma_mul_bound(g as int, dt as int);
    }
    let nv: i128 = v as i128 + (g as i128) * (dt as i128);
    if nv < i64::MIN as i128 || nv > i64::MAX as i128 {
        return None;
    }
    let nv64 = nv as i64;
    proof {
        lemma_mul_bound(nv64 as int, dt as int);
    }
    let np: i128 = p as i128 + (nv64 as i128) * (dt as i128);
    if np < i64::MIN as i128 || np > i64::MAX as i128 {
        return None;
    }
    Some((np as i64, nv64))
}

/// One body through one sub-step, or `None` where it leaves range.
fn advance_body(b: Body, g: Vec3, dt: i64) -> (r: Option<Body>)
    requires
        dt >= 0,
    ensures
        match r {
            Some(nb) => body_fits(b, g, dt as int) && nb == stepped_body(b, g, dt as int),
            None => !body_fits(b, g, dt as int),
        },
{
    let (px, vx) = match advance_axis(b.position.x, b.velocity.x, g.x, dt) {
        Some(a) => a,
        None => return None,
    };
    let (py, vy) = match advance_axis(b.position.y, b.velocity.y, g.y, dt) {
        Some(a) => a,
        None => return None,
    };
    let (pz, vz) = match advance_axis(b.position.z, b.velocity.z, g.z, dt) {
        Some(a) => a,
        None => return None,
    };
    Some(
        Body {
            position: Vec3 { x: px, y: py, z: pz },
            velocity: Vec3 { x: vx, y: vy, z: vz },
            ..b
        },
    )
}

/// One sub-step over a whole store, into a new store.
pub fn step_slots(s: &Vec<Option<Body>>, g: Vec3, dt: i64) -> (r: Option<Vec<Option<Body>>>)
    requires
        dt >= 0,
    ensures
        match r {
            Some(t) => step(s@, g, dt as int) == Some(t@),
            None => step(s@, g, dt as int) is None,
        },
{
    let mut out: Vec<Option<Body>> = Vec::new();
    let mut i: usize = 0;
    while i < s.len()
        invariant
            i <= s@.len(),
            dt >= 0,
            out@.len() == i,
            forall|j: int| 0 <= j < i ==> slot_fits(#[trigger] s@[j], g, dt as int),
            forall|j: int| 0 <= j < i ==> #[trigger] out@[j] == stepped_slot(s@[j], g, dt as int),
        decreases s@.len() - i,
    {
        let o = s[i];
        let n = match o {
            Some(b) => {
                if b.active && !b.mass.is_static() {
                    match advance_body(b, g, dt) {
                        Some(nb) => Some(nb),
                        None => {
                            assert(!slot_fits(s@[i as int], g, dt as int));
                            return None;
                        },
                    }
                } else {
                    Some(b)
                }
            },
            None => None,
        };
        out.push(n);
        i += 1;
    }
    assert(step_fits(s@, g, dt as int));
    assert(out@ =~= s@.map_values(|o: Option<Body>| stepped_slot(o, g, dt as int)));
    Some(out)
}

/// The sum of sub-step lengths.
pub open spec fn total(steps: Seq<int>) -> int
    decreases steps.len(),
{
    if steps.len() == 0 {
        0
    } else {
        total(steps.drop_last()) + steps.last()
    }
}

proof fn lemma_total_prefix(dt: int, cap: Option<i64>, k: int)
    requires
        dt >= 0,
        0 <= k <= substep_count(dt, cap),
        substep_count(dt, cap) >= 1,
    ensures
        total(substeps(dt, cap).take(k)) == k * (dt / substep_count(dt, cap)) + if k < dt
            % substep_count(dt, cap) {
            k
        } else {
            dt % substep_count(dt, cap)
        },
    decreases k,
{
    let steps = substeps(dt, cap);
    if k > 0 {
        lemma_total_prefix(dt, cap, k - 1);
        assert(steps.take(k).drop_last() =~= steps.take(k - 1));
        let q = dt / substep_count(dt, cap);
        assert(k * q == (k - 1) * q + q) by (nonlinear_arith);
        assert(steps.take(k).last() == substep(dt, cap, k - 1));
    } else {
        assert(steps.take(0) =~= Seq::<int>::empty());
    }
}

/// Sub-steps: a step of `dt` milliseconds is split into sub-steps that add
/// up to `dt`, differ from one another by at most one millisecond, and are
/// each no longer than the cap where one is set.
pub proof fn law_substeps(dt: int, cap: Option<i64>)
    requires
        dt >= 0,
        cap is Some ==> cap->0 > 0,
    ensures
        substeps(dt, cap).len() >= 1,
        total(substeps(dt, cap)) == dt,
        forall|k: int, l: int|
            0 <= k < substeps(dt, cap).len() && 0 <= l < substeps(dt, cap).len() ==> #[trigger] substeps(dt, cap)[k]
                <= #[trigger] substeps(dt, cap)[l] + 1,
        forall|k: int|
            0 <= k < substeps(dt, cap).len() ==> 0 <= #[trigger] substeps(dt, cap)[k] && (cap is Some
                ==> substeps(dt, cap)[k] <= cap->0),
{
    let n = substep_count(dt, cap);
    let steps = substeps(dt, cap);
    match cap {
        Some(m) => {
            if dt > m {
                lemma_fundamental_div_mod(dt, m as int);
                assert(dt / (m as int) >= 1) by (nonlinear_arith)
                    requires
                        dt > m > 0,
                ;
                assert(n * m >= dt) by (nonlinear_arith)
                    requires
                        dt == m * (dt / (m as int)) + dt % (m as int),
                        0 <= dt % (m as int) < m,
                        n == dt / (m as int) + if dt % (m as int) == 0 {
                            0int
                        } else {
                            1int
                        },
                ;
            }
        },
        None => {},
    }
    assert(n >= 1);
    lemma_fundamental_div_mod(dt, n);
    let q = dt / n;
    let r = dt % n;
    assert(q >= 0) by (nonlinear_arith)
        requires
            dt >= 0,
            n >= 1,
            q == dt / n,
    ;
    lemma_total_prefix(dt, cap, n);
    assert(steps.take(n) =~= steps);
    assert(n * q == q * n) by (nonlinear_arith);
    match cap {
        Some(m) => {
            if dt > m {
                assert(r > 0 ==> q + 1 <= m) by (nonlinear_arith)
                    requires
                        dt == n * q + r,
                        0 <= r < n,
                        n * m >= dt,
                        n >= 1,
                ;
                assert(q <= m) by (nonlinear_arith)
                    requires
                        dt == n * q + r,
                        0 <= r,
                        n * m >= dt,
                        n >= 1,
                ;
            }
        },
        None => {},
    }
}

} // verus!
