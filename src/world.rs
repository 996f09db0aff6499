//! The world: an arena of bodies keyed by slot index, with gravity and an
//! optional sub-step cap.
use vstd::prelude::*;

use crate::body::{Body, Mass, PhysicsError, Vec3};
use crate::collision::{probe_hits, touches, touches_body};
use crate::integration::{
    advanced,
    lemma_run_none_extends,
    lemma_run_shape,
    run,
    same_shape,
    step_slots,
    substep_count,
    substeps,
};
use crate::laws::{after_call, Call};
use vstd::arithmetic::div_mod::lemma_fundamental_div_mod;

verus! {

/// Gravity by default: 9.81 world units per square second, downwards.
pub const DEFAULT_GRAVITY_Y: i64 = -9810;

/// Every live slot holds a valid body whose id is its index.
pub open spec fn slots_wf(s: Seq<Option<Body>>) -> bool {
    forall|i: int|
        0 <= i < s.len() && (#[trigger] s[i]) is Some ==> s[i]->0.id == i && s[i]->0.valid()
}

/// The number of live bodies.
pub open spec fn live_count(s: Seq<Option<Body>>) -> nat
    decreases s.len(),
{
    if s.len() == 0 {
        0
    } else {
        live_count(s.drop_last()) + if s.last() is Some {
            1nat
        } else {
            0nat
        }
    }
}

/// The live, active bodies, in slot order.
pub open spec fn active_in(s: Seq<Option<Body>>) -> Seq<Body>
    decreases s.len(),
{
    if s.len() == 0 {
        Seq::empty()
    } else {
        active_in(s.drop_last()) + match s.last() {
            Some(b) => if b.active {
                seq![b]
            } else {
                Seq::empty()
            },
            None => Seq::empty(),
        }
    }
}

/// `id` names a live body of `s`.
pub open spec fn is_live(s: Seq<Option<Body>>, id: int) -> bool {
    0 <= id < s.len() && s[id] is Some
}

pub proof fn lemma_live_count_bound(s: Seq<Option<Body>>)
    ensures
        live_count(s) <= s.len(),
    decreases s.len(),
{
    if s.len() > 0 {
        lemma_live_count_bound(s.drop_last());
    }
}

/// Two stores live in the same slots have as many live bodies.
pub proof fn lemma_live_count_same(s: Seq<Option<Body>>, t: Seq<Option<Body>>)
    requires
        s.len() == t.len(),
        forall|i: int| 0 <= i < s.len() ==> (#[trigger] s[i] is Some) == (t[i] is Some),
    ensures
        live_count(s) == live_count(t),
    decreases s.len(),
{
    if s.len() > 0 {
        lemma_live_count_same(s.drop_last(), t.drop_last());
    }
}

/// Freeing a live slot leaves one live body fewer.
pub proof fn lemma_live_count_free(s: Seq<Option<Body>>, i: int)
    requires
        is_live(s, i),
    ensures
        live_count(s.update(i, None)) + 1 == live_count(s),
    decreases s.len(),
{
    let t = s.update(i, None);
    if i == s.len() - 1 {
        assert(t.drop_last() =~= s.drop_last());
    } else {
        assert(t.drop_last() =~= s.drop_last().update(i, None));
        lemma_live_count_free(s.drop_last(), i);
    }
}

/// A store of the same shape is as well formed and as full.
pub proof fn lemma_same_shape_wf(s: Seq<Option<Body>>, t: Seq<Option<Body>>)
    requires
        slots_wf(s),
        same_shape(s, t),
    ensures
        slots_wf(t),
        live_count(t) == live_count(s),
{
    assert forall|i: int| 0 <= i < t.len() && (#[trigger] t[i]) is Some implies t[i]->0.id == i
        && t[i]->0.valid() by {
        assert(s[i] is Some);
    }
    lemma_live_count_same(s, t);
}

/// The number of sub-steps for a step of `dt`.
fn substep_count_of(dt: u64, cap: Option<i64>) -> (n: u64)
    requires
        dt <= i64::MAX,
        cap is Some ==> cap->0 > 0,
    ensures
        n as int == substep_count(dt as int, cap),
        1 <= n,
{
    match cap {
        Some(m) => {
            let mu = m as u64;
            if dt > mu {
                assert(dt / mu >= 1) by (nonlinear_arith)
                    requires
                        dt > mu > 0,
                ;
                assert(dt / mu <= dt) by (nonlinear_arith)
                    requires
                        dt > mu > 0,
                ;
                dt / mu + if dt % mu == 0 {
                    0
                } else {
                    1
                }
            } else {
                1
            }
        },
        None => 1,
    }
}

/// A copy of a store.
fn copy_slots(s: &Vec<Option<Body>>) -> (r: Vec<Option<Body>>)
    ensures
        r@ == s@,
{
    let mut r: Vec<Option<Body>> = Vec::new();
    let mut i: usize = 0;
    while i < s.len()
        invariant
            i <= s@.len(),
            r@ == s@.take(i as int),
        decreases s@.len() - i,
    {
        r.push(s[i]);
        i += 1;
        assert(r@ =~= s@.take(i as int));
    }
    assert(s@.take(s@.len() as int) =~= s@);
    r
}

/// A body with id `id` as `create` makes it: at rest and active.
pub open spec fn fresh_body(id: int, position: Vec3, radius: i64, mass: Mass) -> Body {
    Body { id: id as usize, position, velocity: Vec3 { x: 0, y: 0, z: 0 }, radius, mass, active: true }
}

/// A physics world of spheres.
pub struct PhysicsWorld {
    bodies: Vec<Option<Body>>,
    live: usize,
    gravity: Vec3,
    max_substep: Option<i64>,
    capacity: Option<usize>,
}

impl PhysicsWorld {
    /// The store: slot `i` holds the body with id `i`, or `None` once removed.
    pub closed spec fn slots(&self) -> Seq<Option<Body>> {
        self.bodies@
    }

    pub closed spec fn gravity_vec(&self) -> Vec3 {
        self.gravity
    }

    /// The longest sub-step, in milliseconds, if one is configured.
    pub closed spec fn substep_cap(&self) -> Option<i64> {
        self.max_substep
    }

    /// The most live bodies allowed, if a limit is configured.
    pub closed spec fn body_cap(&self) -> Option<usize> {
        self.capacity
    }

    pub closed spec fn wf(&self) -> bool {
        &&& slots_wf(self.bodies@)
        &&& self.live as nat == live_count(self.bodies@)
        &&& match self.max_substep {
            Some(m) => m > 0,
            None => true,
        }
    }

    /// An empty world with default gravity `(0, -9810, 0)`, no sub-step cap
    /// and no limit on the body count.
    pub fn new() -> (w: PhysicsWorld)
        ensures
            w.wf(),
            w.slots() == Seq::<Option<Body>>::empty(),
            w.gravity_vec() == (Vec3 { x: 0, y: DEFAULT_GRAVITY_Y, z: 0 }),
            w.substep_cap() is None,
            w.body_cap() is None,
    {
        PhysicsWorld {
            bodies: Vec::new(),
            live: 0,
            gravity: Vec3 { x: 0, y: DEFAULT_GRAVITY_Y, z: 0 },
            max_substep: None,
            capacity: None,
        }
    }

    /// Advances every active, non-static body by `dt` milliseconds under
    /// gravity, in sub-steps no longer than the cap where one is set.
    ///
    /// A negative step fails with `InvalidTimeStep`; a step that would carry
    /// a position or velocity out of 64-bit range fails with `OutOfRange`.
    /// Either way no body changes.
    pub fn update(&mut self, dt: i64) -> (r: Result<(), PhysicsError>)
        requires
            old(self).wf(),
        ensures
            final(self).wf(),
            final(self).gravity_vec() == old(self).gravity_vec(),
            final(self).substep_cap() == old(self).substep_cap(),
            final(self).body_cap() == old(self).body_cap(),
            dt < 0 ==> r == Err::<(), PhysicsError>(PhysicsError::InvalidTimeStep)
                && final(self).slots() == old(self).slots(),
            dt >= 0 ==> match advanced(
                old(self).slots(),
                old(self).gravity_vec(),
                old(self).substep_cap(),
                dt as int,
            ) {
                Some(t) => r == Ok::<(), PhysicsError>(()) && final(self).slots() == t,
                None => r == Err::<(), PhysicsError>(PhysicsError::OutOfRange)
                    && final(self).slots() == old(self).slots(),
            },
            final(self).slots() == after_call(
                old(self).slots(),
                old(self).gravity_vec(),
                old(self).substep_cap(),
                old(self).body_cap(),
                Call::Update(dt),
            ),
    {
        if dt < 0 {
            return Err(PhysicsError::InvalidTimeStep);
        }
        let g = self.gravity;
        let du = dt as u64;
        let n = substep_count_of(du, self.max_substep);
        let q: u64 = du / n;
        let rem: u64 = du % n;
        let ghost steps = substeps(dt as int, self.max_substep);
        let ghost s0 = self.bodies@;
        proof {
            lemma_fundamental_div_mod(du as int, n as int);
            assert(q <= n * q) by (nonlinear_arith)
                requires
                    n >= 1,
                    q >= 0,
            ;
            assert(steps.take(0) =~= Seq::<int>::empty());
        }
        let mut cur = copy_slots(&self.bodies);
        let mut k: u64 = 0;
        while k < n
            invariant
                0 <= k <= n,
                n as int == steps.len(),
                n as int == substep_count(dt as int, self.max_substep),
                self.wf(),
                n >= 1,
                q as int == (dt as int) / (n as int),
                rem as int == (dt as int) % (n as int),
                q + 1 <= du || rem == 0,
                du == dt,
                dt >= 0,
                steps == substeps(dt as int, self.max_substep),
                s0 == self.bodies@,
                g == self.gravity,
                run(s0, g, steps.take(k as int)) == Some(cur@),
            decreases n - k,
        {
            let sdt: u64 = if k < rem {
                q + 1
            } else {
                q
            };
            assert(sdt as int == steps[k as int]);
            assert(steps.take(k + 1).drop_last() =~= steps.take(k as int));
            match step_slots(&cur, g, sdt as i64) {
                Some(next) => {
                    cur = next;
                },
                None => {
                    proof {
                        lemma_run_none_extends(s0, g, steps, k + 1, n as int);
                        assert(steps.take(n as int) =~= steps);
                    }
                    return Err(PhysicsError::OutOfRange);
                },
            }
            k += 1;
        }
        proof {
            assert(steps.take(n as int) =~= steps);
            lemma_run_shape(s0, g, steps);
            lemma_same_shape_wf(s0, cur@);
        }
        self.bodies = cur;
        Ok(())
    }

    /// The configured body limit is reached.
    pub open spec fn at_capacity(&self) -> bool {
        match self.body_cap() {
            Some(c) => live_count(self.slots()) >= c,
            None => false,
        }
    }

    /// Adds a body at rest, active, and returns its id: the next slot index,
    /// so ids are never reused.
    ///
    /// Fails with `CapacityExceeded` where a configured body limit is
    /// reached, or where no further id exists.
    pub fn create(&mut self, position: Vec3, radius: i64, mass: Mass) -> (r: Result<
        usize,
        PhysicsError,
    >)
        requires
            old(self).wf(),
            radius > 0,
            mass.valid(),
        ensures
            final(self).wf(),
            final(self).gravity_vec() == old(self).gravity_vec(),
            final(self).substep_cap() == old(self).substep_cap(),
            final(self).body_cap() == old(self).body_cap(),
            r is Err <==> old(self).at_capacity() || old(self).slots().len() == usize::MAX,
            final(self).slots() == after_call(
                old(self).slots(),
                old(self).gravity_vec(),
                old(self).substep_cap(),
                old(self).body_cap(),
                Call::Create(position, radius, mass),
            ),
            match r {
                Ok(id) => id == old(self).slots().len() && final(self).slots() == old(
                    self,
                ).slots().push(Some(fresh_body(id as int, position, radius, mass))),
                Err(e) => e == PhysicsError::CapacityExceeded && final(self).slots() == old(
                    self,
                ).slots(),
            },
    {
        match self.capacity {
            Some(c) => {
                if self.live >= c {
                    return Err(PhysicsError::CapacityExceeded);
                }
            },
            None => {},
        }
        let id = self.bodies.len();
        if id == usize::MAX {
            return Err(PhysicsError::CapacityExceeded);
        }
        proof {
            lemma_live_count_bound(self.bodies@);
        }
        let b = Body { id, position, velocity: Vec3 { x: 0, y: 0, z: 0 }, radius, mass, active: true };
        let ghost s0 = self.bodies@;
        self.bodies.push(Some(b));
        self.live = self.live + 1;
        proof {
            assert(self.bodies@.drop_last() =~= s0);
        }
        Ok(id)
    }

    /// Frees the slot of a live body. Fails with `NotFound` where `id` names
    /// no live body.
    pub fn remove(&mut self, id: usize) -> (r: Result<(), PhysicsError>)
        requires
            old(self).wf(),
        ensures
            final(self).wf(),
            final(self).gravity_vec() == old(self).gravity_vec(),
            final(self).substep_cap() == old(self).substep_cap(),
            final(self).body_cap() == old(self).body_cap(),
            is_live(old(self).slots(), id as int) ==> r == Ok::<(), PhysicsError>(())
                && final(self).slots() == old(self).slots().update(id as int, None),
            !is_live(old(self).slots(), id as int) ==> r == Err::<(), PhysicsError>(
                PhysicsError::NotFound,
            ) && final(self).slots() == old(self).slots(),
    {
        if id >= self.bodies.len() || self.bodies[id].is_none() {
            return Err(PhysicsError::NotFound);
        }
        proof {
            lemma_live_count_free(self.bodies@, id as int);
        }
        self.bodies[id] = None;
        self.live = self.live - 1;
        Ok(())
    }

    /// A snapshot of a live body. Fails with `NotFound` where `id` names no
    /// live body.
    pub fn get(&self, id: usize) -> (r: Result<Body, PhysicsError>)
        requires
            self.wf(),
        ensures
            is_live(self.slots(), id as int) ==> r == Ok::<Body, PhysicsError>(
                self.slots()[id as int]->0,
            ),
            !is_live(self.slots(), id as int) ==> r == Err::<Body, PhysicsError>(
                PhysicsError::NotFound,
            ),
    {
        if id >= self.bodies.len() {
            return Err(PhysicsError::NotFound);
        }
        match self.bodies[id] {
            Some(b) => Ok(b),
            None => Err(PhysicsError::NotFound),
        }
    }

    /// Replaces the velocity of a live body. Fails with `NotFound` where `id`
    /// names no live body.
    pub fn set_velocity(&mut self, id: usize, v: Vec3) -> (r: Result<(), PhysicsError>)
        requires
            old(self).wf(),
        ensures
            final(self).wf(),
            final(self).gravity_vec() == old(self).gravity_vec(),
            final(self).substep_cap() == old(self).substep_cap(),
            final(self).body_cap() == old(self).body_cap(),
            is_live(old(self).slots(), id as int) ==> r == Ok::<(), PhysicsError>(())
                && final(self).slots() == old(self).slots().update(
                id as int,
                Some(Body { velocity: v, ..old(self).slots()[id as int]->0 }),
            ),
            !is_live(old(self).slots(), id as int) ==> r == Err::<(), PhysicsError>(
                PhysicsError::NotFound,
            ) && final(self).slots() == old(self).slots(),
            final(self).slots() == after_call(
                old(self).slots(),
                old(self).gravity_vec(),
                old(self).substep_cap(),
                old(self).body_cap(),
                Call::SetVelocity(id, v),
            ),
    {
        if id >= self.bodies.len() {
            return Err(PhysicsError::NotFound);
        }
        match self.bodies[id] {
            Some(b) => {
                let ghost s0 = self.bodies@;
                self.bodies[id] = Some(Body { velocity: v, ..b });
                proof {
                    lemma_live_count_same(s0, self.bodies@);
                }
                Ok(())
            },
            None => Err(PhysicsError::NotFound),
        }
    }

    /// Turns integration and collision of a live body on or off. Fails with
    /// `NotFound` where `id` names no live body.
    pub fn set_active(&mut self, id: usize, active: bool) -> (r: Result<(), PhysicsError>)
        requires
            old(self).wf(),
        ensures
            final(self).wf(),
            final(self).gravity_vec() == old(self).gravity_vec(),
            final(self).substep_cap() == old(self).substep_cap(),
            final(self).body_cap() == old(self).body_cap(),
            is_live(old(self).slots(), id as int) ==> r == Ok::<(), PhysicsError>(())
                && final(self).slots() == old(self).slots().update(
                id as int,
                Some(Body { active, ..old(self).slots()[id as int]->0 }),
            ),
            !is_live(old(self).slots(), id as int) ==> r == Err::<(), PhysicsError>(
                PhysicsError::NotFound,
            ) && final(self).slots() == old(self).slots(),
    {
        if id >= self.bodies.len() {
            return Err(PhysicsError::NotFound);
        }
        match self.bodies[id] {
            Some(b) => {
                let ghost s0 = self.bodies@;
                self.bodies[id] = Some(Body { active, ..b });
                proof {
                    lemma_live_count_same(s0, self.bodies@);
                }
                Ok(())
            },
            None => Err(PhysicsError::NotFound),
        }
    }

    /// Snapshots of the live, active bodies, in id order; each call scans the
    /// current state afresh.
    pub fn for_each_active(&self) -> (r: Vec<Body>)
        requires
            self.wf(),
        ensures
            r@ == active_in(self.slots()),
    {
        let mut r: Vec<Body> = Vec::new();
        let mut i: usize = 0;
        while i < self.bodies.len()
            invariant
                i <= self.bodies@.len(),
                r@ == active_in(self.bodies@.take(i as int)),
            decreases self.bodies@.len() - i,
        {
            proof {
                assert(self.bodies@.take(i + 1).drop_last() =~= self.bodies@.take(i as int));
            }
            match self.bodies[i] {
                Some(b) => {
                    if b.active {
                        r.push(b);
                    }
                },
                None => {},
            }
            i += 1;
            proof {
                assert(r@ =~= active_in(self.bodies@.take(i as int)));
            }
        }
        assert(self.bodies@.take(i as int) =~= self.bodies@);
        r
    }

    /// The number of live bodies.
    pub fn body_count(&self) -> (n: usize)
        requires
            self.wf(),
        ensures
            n as nat == live_count(self.slots()),
    {
        self.live
    }

    /// Whether a probe sphere at `(x, y, z)` of radius `radius` touches or
    /// overlaps some live, active body. Tangent spheres touch; a negative
    /// radius touches nothing.
    pub fn check_collision(&self, x: i64, y: i64, z: i64, radius: i64) -> (hit: bool)
        requires
            self.wf(),
        ensures
            hit == probe_hits(self.slots(), x as int, y as int, z as int, radius as int),
    {
        let mut i: usize = 0;
        while i < self.bodies.len()
            invariant
                self.wf(),
                i <= self.bodies@.len(),
                forall|j: int|
                    0 <= j < i && (#[trigger] self.bodies@[j]) is Some
                        && self.bodies@[j]->0.active ==> !touches(
                        self.bodies@[j]->0,
                        x as int,
                        y as int,
                        z as int,
                        radius as int,
                    ),
            decreases self.bodies@.len() - i,
        {
            match self.bodies[i] {
                Some(b) => {
                    if b.active && touches_body(&b, x, y, z, radius) {
                        return true;
                    }
                },
                None => {},
            }
            i += 1;
        }
        false
    }

    pub fn gravity(&self) -> (g: Vec3)
        ensures
            g == self.gravity_vec(),
    {
        self.gravity
    }

    /// Sets the gravity that later steps apply; bodies are unchanged.
    pub fn set_gravity(&mut self, g: Vec3)
        requires
            old(self).wf(),
        ensures
            final(self).wf(),
            final(self).gravity_vec() == g,
            final(self).slots() == old(self).slots(),
            final(self).substep_cap() == old(self).substep_cap(),
            final(self).body_cap() == old(self).body_cap(),
    {
        self.gravity = g;
    }

    pub fn max_substep(&self) -> (m: Option<i64>)
        ensures
            m == self.substep_cap(),
    {
        self.max_substep
    }

    /// Sets or clears the longest sub-step, in milliseconds. Fails with
    /// `InvalidTimeStep`, changing nothing, where the cap is not positive.
    pub fn set_max_substep(&mut self, cap: Option<i64>) -> (r: Result<(), PhysicsError>)
        requires
            old(self).wf(),
        ensures
            final(self).wf(),
            final(self).slots() == old(self).slots(),
            final(self).gravity_vec() == old(self).gravity_vec(),
            final(self).body_cap() == old(self).body_cap(),
            (cap is Some && cap->0 <= 0) ==> r == Err::<(), PhysicsError>(
                PhysicsError::InvalidTimeStep,
            ) && final(self).substep_cap() == old(self).substep_cap(),
            !(cap is Some && cap->0 <= 0) ==> r == Ok::<(), PhysicsError>(())
                && final(self).substep_cap() == cap,
    {
        match cap {
            Some(m) => {
                if m <= 0 {
                    return Err(PhysicsError::InvalidTimeStep);
                }
            },
            None => {},
        }
        self.max_substep = cap;
        Ok(())
    }

    pub fn capacity(&self) -> (c: Option<usize>)
        ensures
            c == self.body_cap(),
    {
        self.capacity
    }

    /// Sets or clears the most live bodies that `create` allows; bodies
    /// already live stay.
    pub fn set_capacity(&mut self, limit: Option<usize>)
        requires
            old(self).wf(),
        ensures
            final(self).wf(),
            final(self).body_cap() == limit,
            final(self).slots() == old(self).slots(),
            final(self).gravity_vec() == old(self).gravity_vec(),
            final(self).substep_cap() == old(self).substep_cap(),
    {
        self.capacity = limit;
    }
}

} // verus!
