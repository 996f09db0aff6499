//! Properties of the world that relate several calls.
use vstd::prelude::*;

use crate::body::{Body, Mass, Vec3};
use crate::integration::{advanced, lemma_run_shape, run, slot_fits, step, stepped_slot, substeps};
use crate::world::{fresh_body, is_live, live_count};

verus! {

/// A call that changes the bodies of a world.
#[derive(Clone, Copy, Debug, PartialEq, Eq, Structural)]
pub enum Call {
    Create(Vec3, i64, Mass),
    Update(i64),
    SetVelocity(usize, Vec3),
}

/// The store after `call`, under gravity `g`, sub-step cap `cap` and body
/// limit `limit`; a call that fails leaves the store as it was.
pub open spec fn after_call(
    s: Seq<Option<Body>>,
    g: Vec3,
    cap: Option<i64>,
    limit: Option<usize>,
    call: Call,
) -> Seq<Option<Body>> {
    match call {
        Call::Create(position, radius, mass) => {
            let full = match limit {
                Some(c) => live_count(s) >= c,
                None => false,
            };
            if full || s.len() == usize::MAX {
                s
            } else {
                s.push(Some(fresh_body(s.len() as int, position, radius, mass)))
            }
        },
        Call::Update(dt) => if dt < 0 {
            s
        } else {
            match advanced(s, g, cap, dt as int) {
                Some(t) => t,
                None => s,
            }
        },
        Call::SetVelocity(id, v) => if is_live(s, id as int) {
            s.update(id as int, Some(Body { velocity: v, ..s[id as int]->0 }))
        } else {
            s
        },
    }
}

/// The store after the calls, in order.
pub open spec fn replay(
    s: Seq<Option<Body>>,
    g: Vec3,
    cap: Option<i64>,
    limit: Option<usize>,
    calls: Seq<Call>,
) -> Seq<Option<Body>>
    decreases calls.len(),
{
    if calls.len() == 0 {
        s
    } else {
        after_call(replay(s, g, cap, limit, calls.drop_last()), g, cap, limit, calls.last())
    }
}

/// Determinism: two worlds with the same bodies and settings, given the same
/// calls with the same arguments, end with bit-identical bodies.
pub proof fn law_deterministic(
    s1: Seq<Option<Body>>,
    s2: Seq<Option<Body>>,
    g: Vec3,
    cap: Option<i64>,
    limit: Option<usize>,
    calls: Seq<Call>,
)
    requires
        s1 == s2,
    ensures
        replay(s1, g, cap, limit, calls) == replay(s2, g, cap, limit, calls),
{
}

proof fn lemma_run_keeps_still(s: Seq<Option<Body>>, g: Vec3, steps: Seq<int>, i: int)
    requires
        is_live(s, i),
        !s[i]->0.movable(),
        run(s, g, steps) is Some,
    ensures
        run(s, g, steps)->0.len() == s.len(),
        run(s, g, steps)->0[i] == s[i],
    decreases steps.len(),
{
    if steps.len() > 0 {
        lemma_run_keeps_still(s, g, steps.drop_last(), i);
    }
}

/// Static bodies never move: a live body of infinite mass keeps its slot,
/// its mass and its position through any calls.
pub proof fn law_static_body_stays(
    s: Seq<Option<Body>>,
    g: Vec3,
    cap: Option<i64>,
    limit: Option<usize>,
    calls: Seq<Call>,
    i: int,
)
    requires
        is_live(s, i),
        s[i]->0.mass is Static,
    ensures
        is_live(replay(s, g, cap, limit, calls), i),
        replay(s, g, cap, limit, calls)[i]->0.mass is Static,
        replay(s, g, cap, limit, calls)[i]->0.position == s[i]->0.position,
    decreases calls.len(),
{
    if calls.len() > 0 {
        let t = replay(s, g, cap, limit, calls.drop_last());
        law_static_body_stays(s, g, cap, limit, calls.drop_last(), i);
        match calls.last() {
            Call::Update(dt) => {
                if dt >= 0 && advanced(t, g, cap, dt as int) is Some {
                    lemma_run_keeps_still(t, g, substeps(dt as int, cap), i);
                }
            },
            _ => {},
        }
    }
}

proof fn lemma_step_remove(t: Seq<Option<Body>>, g: Vec3, dt: int, a: int)
    requires
        0 <= a < t.len(),
        step(t, g, dt) is Some,
    ensures
        step(t.update(a, None), g, dt) == Some(step(t, g, dt)->0.update(a, None)),
{
    let u = t.update(a, None);
    assert forall|i: int| 0 <= i < u.len() implies slot_fits(
        #[trigger] u[i],
        g,
        dt,
    ) by {
        if i != a {
            assert(u[i] == t[i]);
        }
    }
    assert(u.map_values(|o: Option<Body>| stepped_slot(o, g, dt)) =~= t.map_values(
        |o: Option<Body>| stepped_slot(o, g, dt),
    ).update(a, None));
}

proof fn lemma_run_remove(s: Seq<Option<Body>>, g: Vec3, steps: Seq<int>, a: int)
    requires
        0 <= a < s.len(),
        run(s, g, steps) is Some,
    ensures
        run(s.update(a, None), g, steps) == Some(run(s, g, steps)->0.update(a, None)),
    decreases steps.len(),
{
    if steps.len() > 0 {
        let t = run(s, g, steps.drop_last())->0;
        lemma_run_remove(s, g, steps.drop_last(), a);
        lemma_run_shape(s, g, steps.drop_last());
        lemma_step_remove(t, g, steps.last(), a);
    }
}

/// Removal isolation: removing body `a` while a step is in progress, which
/// takes effect when the step completes, gives every other body the result
/// it would have had without `a`, and `a` is gone afterwards.
pub proof fn law_removal_isolation(
    s: Seq<Option<Body>>,
    g: Vec3,
    cap: Option<i64>,
    dt: int,
    a: int,
)
    requires
        is_live(s, a),
        dt >= 0,
        advanced(s, g, cap, dt) is Some,
    ensures
        advanced(s.update(a, None), g, cap, dt) == Some(advanced(s, g, cap, dt)->0.update(a, None)),
        !is_live(advanced(s.update(a, None), g, cap, dt)->0, a),
        forall|i: int|
            0 <= i < s.len() && i != a ==> (#[trigger] advanced(s.update(a, None), g, cap, dt)->0[i])
                == advanced(s, g, cap, dt)->0[i],
{
    lemma_run_remove(s, g, substeps(dt, cap), a);
    lemma_run_shape(s, g, substeps(dt, cap));
}

} // verus!
