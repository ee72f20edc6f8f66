//! Each entity's aggregate interaction state across all pointers.
use vstd::prelude::*;
use crate::Entity;
use crate::events::contains_entity;

verus! {

/// An entity's interaction state, derived from every pointer's hover set.
#[derive(Clone, Copy, Debug, PartialEq, Eq, Structural)]
pub enum PickingInteraction {
    /// Some pointer that hovers the entity has a button held.
    Pressed,
    /// Some pointer hovers the entity, none of them with a button held.
    Hovered,
    /// No pointer hovers the entity (the "none" state).
    Idle,
}

/// One pointer's current hover set and whether it has a button held.
pub struct PointerHover {
    /// The entities the pointer hovers.
    pub hovered: Vec<Entity>,
    /// Whether any of the pointer's buttons is held.
    pub pressed: bool,
}

/// Whether some pointer with a button held hovers `e`.
pub open spec fn pressed_over(ps: Seq<PointerHover>, e: Entity) -> bool {
    exists|i: int| 0 <= i < ps.len() && (#[trigger] ps[i]).pressed && ps[i].hovered@.contains(e)
}

/// Whether some pointer hovers `e`.
pub open spec fn hovered_by_any(ps: Seq<PointerHover>, e: Entity) -> bool {
    exists|i: int| 0 <= i < ps.len() && (#[trigger] ps[i]).hovered@.contains(e)
}

/// The interaction state of `e`: pressed dominates hovered dominates none.
pub open spec fn interaction_in(ps: Seq<PointerHover>, e: Entity) -> PickingInteraction {
    if pressed_over(ps, e) {
        PickingInteraction::Pressed
    } else if hovered_by_any(ps, e) {
        PickingInteraction::Hovered
    } else {
        PickingInteraction::Idle
    }
}

/// Computes the interaction state of `e` from every pointer's hover set.
pub fn interaction_of(pointers: &Vec<PointerHover>, e: Entity) -> (r: PickingInteraction)
    ensures
        r == interaction_in(pointers@, e),
{
    let mut hovered = false;
    let mut i: usize = 0;
    while i < pointers.len()
        invariant
            i <= pointers@.len(),
            hovered == exists|j: int|
                0 <= j < i && (#[trigger] pointers@[j]).hovered@.contains(e),
            forall|j: int|
                0 <= j < i ==> !((#[trigger] pointers@[j]).pressed && pointers@[j].hovered@.contains(
                    e,
                )),
        decreases pointers@.len() - i,
    {
        let p = &pointers[i];
        if contains_entity(&p.hovered, e) {
            if p.pressed {
                assert(pressed_over(pointers@, e));
                return PickingInteraction::Pressed;
            }
            hovered = true;
        }
        i = i + 1;
    }
    if hovered {
        PickingInteraction::Hovered
    } else {
        PickingInteraction::Idle
    }
}

/// An entity's state is `Pressed` exactly when a pointer with a button held
/// hovers it, `Hovered` exactly when some pointer hovers it and none of those
/// has a button held, and `None` exactly when no pointer hovers it.
pub proof fn lemma_interaction_reflects_hover(ps: Seq<PointerHover>, e: Entity)
    ensures
        interaction_in(ps, e) == PickingInteraction::Pressed <==> exists|i: int|
            0 <= i < ps.len() && (#[trigger] ps[i]).pressed && ps[i].hovered@.contains(e),
        interaction_in(ps, e) == PickingInteraction::Hovered <==> (exists|i: int|
            0 <= i < ps.len() && (#[trigger] ps[i]).hovered@.contains(e)) && forall|i: int|
            0 <= i < ps.len() && (#[trigger] ps[i]).hovered@.contains(e) ==> !ps[i].pressed,
        interaction_in(ps, e) == PickingInteraction::Idle <==> forall|i: int|
            0 <= i < ps.len() ==> !(#[trigger] ps[i]).hovered@.contains(e),
{
}

fn add_unseen(
    seen: &mut Vec<Entity>,
    out: &mut Vec<(Entity, PickingInteraction)>,
    src: &Vec<Entity>,
    pointers: &Vec<PointerHover>,
)
    requires
        old(seen)@.len() == old(out)@.len(),
        forall|i: int| 0 <= i < old(out)@.len() ==> (#[trigger] old(out)@[i]).0 == old(seen)@[i],
        forall|i: int|
            0 <= i < old(out)@.len() ==> (#[trigger] old(out)@[i]).1 == interaction_in(
                pointers@,
                old(out)@[i].0,
            ),
        forall|i: int, j: int|
            0 <= i < j < old(seen)@.len() ==> (#[trigger] old(seen)@[i]) != (#[trigger] old(seen)@[j]),
    ensures
        final(seen)@.len() == final(out)@.len(),
        forall|i: int| 0 <= i < final(out)@.len() ==> (#[trigger] final(out)@[i]).0 == final(seen)@[i],
        forall|i: int|
            0 <= i < final(out)@.len() ==> (#[trigger] final(out)@[i]).1 == interaction_in(
                pointers@,
                final(out)@[i].0,
            ),
        forall|i: int, j: int|
            0 <= i < j < final(seen)@.len() ==> (#[trigger] final(seen)@[i])
                != (#[trigger] final(seen)@[j]),
        forall|e: Entity| #[trigger]
            final(seen)@.contains(e) <==> old(seen)@.contains(e) || src@.contains(e),
{
    let ghost seen0 = seen@;
    let mut k: usize = 0;
    while k < src.len()
        invariant
            k <= src@.len(),
            seen@.len() == out@.len(),
            forall|i: int| 0 <= i < out@.len() ==> (#[trigger] out@[i]).0 == seen@[i],
            forall|i: int|
                0 <= i < out@.len() ==> (#[trigger] out@[i]).1 == interaction_in(
                    pointers@,
                    out@[i].0,
                ),
            forall|i: int, j: int| 0 <= i < j < seen@.len() ==> (#[trigger] seen@[i]) != (#[trigger] seen@[j]),
            forall|e: Entity| #[trigger]
                seen@.contains(e) <==> seen0.contains(e) || src@.take(k as int).contains(e),
        decreases src@.len() - k,
    {
        let e = src[k];
        let ghost before = seen@;
        if !contains_entity(seen, e) {
            let st = interaction_of(pointers, e);
            seen.push(e);
            out.push((e, st));
            proof {
                assert forall|x: Entity| #[trigger] seen@.contains(x) <==> before.contains(x) || x == e by {
                    if seen@.contains(x) {
                        let j = choose|j: int| 0 <= j < seen@.len() && #[trigger] seen@[j] == x;
                        if j < before.len() {
                            assert(before[j] == x);
                        }
                    }
                    if before.contains(x) {
                        let j = choose|j: int| 0 <= j < before.len() && #[trigger] before[j] == x;
                        assert(seen@[j] == x);
                    }
                    assert(seen@[before.len() as int] == e);
                }
            }
        }
        proof {
            assert forall|x: Entity| #[trigger]
                src@.take(k + 1).contains(x) <==> src@.take(k as int).contains(x) || x == src@[k as int] by {
                if src@.take(k + 1).contains(x) {
                    let j = choose|j: int| 0 <= j < k + 1 && #[trigger] src@.take(k + 1)[j] == x;
                    if j < k {
                        assert(src@.take(k as int)[j] == x);
                    }
                }
                if src@.take(k as int).contains(x) {
                    let j = choose|j: int| 0 <= j < k && #[trigger] src@.take(k as int)[j] == x;
                    assert(src@.take(k + 1)[j] == x);
                }
                assert(src@.take(k + 1)[k as int] == src@[k as int]);
            }
        }
        k = k + 1;
    }
    assert(src@.take(src@.len() as int) =~= src@);
}

/// The entities whose state is refreshed this frame, each once with its new
/// state: every entity hovered last frame or hovered now by any pointer.
pub fn update_interactions(previous: &Vec<Entity>, pointers: &Vec<PointerHover>) -> (r: Vec<
    (Entity, PickingInteraction),
>)
    ensures
        forall|i: int| 0 <= i < r@.len() ==> (#[trigger] r@[i]).1 == interaction_in(pointers@, r@[i].0),
        forall|i: int, j: int| 0 <= i < j < r@.len() ==> (#[trigger] r@[i]).0 != (#[trigger] r@[j]).0,
        forall|e: Entity|
            (exists|i: int| 0 <= i < r@.len() && (#[trigger] r@[i]).0 == e) <==> (previous@.contains(e)
                || hovered_by_any(pointers@, e)),
{
    let mut seen: Vec<Entity> = Vec::new();
    let mut out: Vec<(Entity, PickingInteraction)> = Vec::new();
    add_unseen(&mut seen, &mut out, previous, pointers);
    let mut p: usize = 0;
    while p < pointers.len()
        invariant
            p <= pointers@.len(),
            seen@.len() == out@.len(),
            forall|i: int| 0 <= i < out@.len() ==> (#[trigger] out@[i]).0 == seen@[i],
            forall|i: int|
                0 <= i < out@.len() ==> (#[trigger] out@[i]).1 == interaction_in(pointers@, out@[i].0),
            forall|i: int, j: int| 0 <= i < j < seen@.len() ==> (#[trigger] seen@[i]) != (#[trigger] seen@[j]),
            forall|e: Entity| #[trigger]
                seen@.contains(e) <==> previous@.contains(e) || hovered_by_any(pointers@.take(p as int), e),
        decreases pointers@.len() - p,
    {
        add_unseen(&mut seen, &mut out, &pointers[p].hovered, pointers);
        proof {
            let t = pointers@.take(p + 1);
            assert forall|e: Entity|
                hovered_by_any(t, e) <==> hovered_by_any(pointers@.take(p as int), e)
                    || pointers@[p as int].hovered@.contains(e) by {
                if hovered_by_any(t, e) {
                    let q = choose|q: int| 0 <= q < t.len() && (#[trigger] t[q]).hovered@.contains(e);
                    if q < p {
                        assert(pointers@.take(p as int)[q] == t[q]);
                    }
                }
                if hovered_by_any(pointers@.take(p as int), e) {
                    let q = choose|q: int|
                        0 <= q < p && (#[trigger] pointers@.take(p as int)[q]).hovered@.contains(e);
                    assert(t[q] == pointers@.take(p as int)[q]);
                }
                assert(t[p as int] == pointers@[p as int]);
            }
        }
        p = p + 1;
    }
    proof {
        assert(pointers@.take(pointers@.len() as int) =~= pointers@);
        assert forall|e: Entity|
            (exists|i: int| 0 <= i < out@.len() && (#[trigger] out@[i]).0 == e) <==> (
            previous@.contains(e) || hovered_by_any(pointers@, e)) by {
            if exists|i: int| 0 <= i < out@.len() && (#[trigger] out@[i]).0 == e {
                let i = choose|i: int| 0 <= i < out@.len() && (#[trigger] out@[i]).0 == e;
                assert(seen@[i] == e);
            }
            if seen@.contains(e) {
                let i = choose|i: int| 0 <= i < seen@.len() && #[trigger] seen@[i] == e;
                assert(out@[i].0 == e);
            }
        }
    }
    out
}

} // verus!
