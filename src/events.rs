//! The pointer events of one frame, derived from hover sets and input edges.
use vstd::prelude::*;
use crate::Entity;
use crate::pointer::PointerButton;

verus! {

/// The kinds of pointer event.
#[derive(Clone, Copy, Debug, PartialEq, Eq, Structural)]
pub enum EventKind {
    /// The pointer left the entity.
    Out,
    /// The pointer entered the entity.
    Over,
    /// The pointer moved while over the entity.
    Move,
    /// A button was pressed over the entity.
    Down(PointerButton),
    /// A button was released over the entity.
    Up(PointerButton),
    /// A button was pressed and released over the entity.
    Click(PointerButton),
    /// The pointer scrolled while over the entity.
    Scroll,
    /// A drag of the entity began.
    DragStart(PointerButton),
    /// The entity is being dragged; the pointer moved by the given amounts.
    Drag(PointerButton, DragDelta),
    /// A drag of the entity ended.
    DragEnd(PointerButton),
    /// The dragged entities were dropped on the entity.
    Drop(PointerButton),
    /// The pointer's interaction with the entity was cancelled.
    Cancel,
    /// While a drag is in progress, the pointer entered the entity.
    DragEnter(PointerButton),
    /// While a drag is in progress, the pointer moved over the entity.
    DragOver(PointerButton),
    /// While a drag is in progress, the pointer left the entity.
    DragLeave(PointerButton),
}

/// How far a drag moved: in its latest move, and in all since it began.
#[derive(Clone, Copy, Debug, PartialEq, Eq, Structural)]
pub struct DragDelta {
    /// Horizontal movement of the latest move.
    pub delta_x: i64,
    /// Vertical movement of the latest move.
    pub delta_y: i64,
    /// Horizontal movement since the drag's origin.
    pub distance_x: i64,
    /// Vertical movement since the drag's origin.
    pub distance_y: i64,
}

/// The button an event concerns, for the kinds that concern one.
pub open spec fn kind_button(k: EventKind) -> Option<PointerButton> {
    match k {
        EventKind::Down(b) => Some(b),
        EventKind::Up(b) => Some(b),
        EventKind::Click(b) => Some(b),
        EventKind::DragStart(b) => Some(b),
        EventKind::Drag(b, _) => Some(b),
        EventKind::DragEnd(b) => Some(b),
        EventKind::Drop(b) => Some(b),
        EventKind::DragEnter(b) => Some(b),
        EventKind::DragOver(b) => Some(b),
        EventKind::DragLeave(b) => Some(b),
        _ => None,
    }
}

/// An event together with the entity it targets.
#[derive(Clone, Copy, Debug, PartialEq, Eq, Structural)]
pub struct PointerEvent {
    /// What happened.
    pub kind: EventKind,
    /// The entity the event is delivered to first.
    pub target: Entity,
}

/// The position of a kind in the fixed order of one pointer's frame output.
pub open spec fn phase(k: EventKind) -> int {
    match k {
        EventKind::Out => 0,
        EventKind::Over => 1,
        EventKind::Move => 2,
        EventKind::Down(_) => 3,
        EventKind::Up(_) => 3,
        EventKind::Click(_) => 3,
        EventKind::Scroll => 4,
        _ => 5,
    }
}

/// Events of kind `k` for the first `n` entities of `s` whose membership in
/// `other` is `inside`, in order.
pub open spec fn tagged(s: Seq<Entity>, k: EventKind, other: Seq<Entity>, inside: bool, n: int) -> Seq<
    PointerEvent,
>
    decreases n,
{
    if n <= 0 {
        Seq::empty()
    } else {
        let p = tagged(s, k, other, inside, n - 1);
        if other.contains(s[n - 1]) == inside {
            p.push(PointerEvent { kind: k, target: s[n - 1] })
        } else {
            p
        }
    }
}

/// Events of kind `k` for every entity of `s` that is not in `excl`.
pub open spec fn tagged_all(s: Seq<Entity>, k: EventKind, excl: Seq<Entity>) -> Seq<PointerEvent> {
    tagged(s, k, excl, false, s.len() as int)
}

/// Events of kind `k` for every entity of `s` that is also in `incl`.
pub open spec fn tagged_among(s: Seq<Entity>, k: EventKind, incl: Seq<Entity>) -> Seq<PointerEvent> {
    tagged(s, k, incl, true, s.len() as int)
}

/// The `Down` and `Up` events of the first `n` button edges, each to every hovered entity.
pub open spec fn press_events(edges: Seq<(PointerButton, bool)>, cur: Seq<Entity>, n: int) -> Seq<
    PointerEvent,
>
    decreases n,
{
    if n <= 0 {
        Seq::empty()
    } else {
        let (b, down) = edges[n - 1];
        let k = if down {
            EventKind::Down(b)
        } else {
            EventKind::Up(b)
        };
        press_events(edges, cur, n - 1) + tagged_all(cur, k, Seq::empty())
    }
}

/// One pointer's hover and input events for a frame: `Out` for entities that
/// left the hover set, `Over` for those that entered it, `Move` to every hovered
/// entity if the pointer moved, `Down`/`Up` to every hovered entity for each
/// button edge in arrival order, and `Scroll` to every hovered entity if it scrolled.
pub open spec fn frame_events(
    prev: Seq<Entity>,
    cur: Seq<Entity>,
    moved: bool,
    edges: Seq<(PointerButton, bool)>,
    scrolled: bool,
) -> Seq<PointerEvent> {
    tagged_all(prev, EventKind::Out, cur) + tagged_all(cur, EventKind::Over, prev) + (if moved {
        tagged_all(cur, EventKind::Move, Seq::empty())
    } else {
        Seq::empty()
    }) + press_events(edges, cur, edges.len() as int) + (if scrolled {
        tagged_all(cur, EventKind::Scroll, Seq::empty())
    } else {
        Seq::empty()
    })
}

/// Whether `v` holds `e`.
pub fn contains_entity(v: &Vec<Entity>, e: Entity) -> (r: bool)
    ensures
        r == v@.contains(e),
{
    let mut i: usize = 0;
    while i < v.len()
        invariant
            i <= v@.len(),
            forall|j: int| 0 <= j < i ==> v@[j] != e,
        decreases v@.len() - i,
    {
        if v[i] == e {
            return true;
        }
        i = i + 1;
    }
    false
}

pub(crate) fn push_tagged(
    out: &mut Vec<PointerEvent>,
    s: &Vec<Entity>,
    k: EventKind,
    other: &Vec<Entity>,
    inside: bool,
)
    ensures
        final(out)@ == old(out)@ + tagged(s@, k, other@, inside, s@.len() as int),
{
    let ghost start = out@;
    let mut i: usize = 0;
    while i < s.len()
        invariant
            i <= s@.len(),
            out@ == start + tagged(s@, k, other@, inside, i as int),
        decreases s@.len() - i,
    {
        if contains_entity(other, s[i]) == inside {
            out.push(PointerEvent { kind: k, target: s[i] });
        }
        i = i + 1;
        assert(out@ =~= start + tagged(s@, k, other@, inside, i as int));
    }
}

/// The drop-target events of a frame in which button `b` drags `drag_set`:
/// `DragLeave`, `DragEnter` and, if the pointer moved, `DragOver`, exactly as
/// `Out`, `Over` and `Move` are sent, but never to a dragged entity.
pub open spec fn drag_over_spec(
    b: PointerButton,
    drag_set: Seq<Entity>,
    prev: Seq<Entity>,
    cur: Seq<Entity>,
    moved: bool,
) -> Seq<PointerEvent> {
    tagged_all(prev, EventKind::DragLeave(b), cur + drag_set) + tagged_all(
        cur,
        EventKind::DragEnter(b),
        prev + drag_set,
    ) + (if moved {
        tagged_all(cur, EventKind::DragOver(b), drag_set)
    } else {
        Seq::empty()
    })
}

fn concat(a: &Vec<Entity>, b: &Vec<Entity>) -> (r: Vec<Entity>)
    ensures
        r@ == a@ + b@,
{
    let mut r = a.clone();
    let mut i: usize = 0;
    while i < b.len()
        invariant
            i <= b@.len(),
            r@ == a@ + b@.take(i as int),
        decreases b@.len() - i,
    {
        r.push(b[i]);
        i = i + 1;
        assert(r@ =~= a@ + b@.take(i as int));
    }
    assert(b@.take(b@.len() as int) =~= b@);
    r
}

/// Builds the drop-target events of one pointer for a frame in which button
/// `b` drags `drag_set`.
pub fn drag_over_events(
    b: PointerButton,
    drag_set: &Vec<Entity>,
    prev: &Vec<Entity>,
    cur: &Vec<Entity>,
    moved: bool,
) -> (r: Vec<PointerEvent>)
    ensures
        r@ == drag_over_spec(b, drag_set@, prev@, cur@, moved),
{
    let mut out: Vec<PointerEvent> = Vec::new();
    let left_out = concat(cur, drag_set);
    let entered_out = concat(prev, drag_set);
    push_tagged(&mut out, prev, EventKind::DragLeave(b), &left_out, false);
    push_tagged(&mut out, cur, EventKind::DragEnter(b), &entered_out, false);
    if moved {
        push_tagged(&mut out, cur, EventKind::DragOver(b), drag_set, false);
    }
    proof {
        assert(out@ =~= drag_over_spec(b, drag_set@, prev@, cur@, moved));
    }
    out
}

/// Builds one pointer's hover and input events for a frame, in the fixed order
/// `Out`, `Over`, `Move`, `Down`/`Up`, `Scroll`.
pub fn pointer_events(
    prev: &Vec<Entity>,
    cur: &Vec<Entity>,
    moved: bool,
    edges: &Vec<(PointerButton, bool)>,
    scrolled: bool,
) -> (r: Vec<PointerEvent>)
    ensures
        r@ == frame_events(prev@, cur@, moved, edges@, scrolled),
{
    let none: Vec<Entity> = Vec::new();
    let mut out: Vec<PointerEvent> = Vec::new();
    push_tagged(&mut out, prev, EventKind::Out, cur, false);
    push_tagged(&mut out, cur, EventKind::Over, prev, false);
    if moved {
        push_tagged(&mut out, cur, EventKind::Move, &none, false);
    }
    let ghost before = out@;
    let mut i: usize = 0;
    while i < edges.len()
        invariant
            i <= edges@.len(),
            none@ == Seq::<Entity>::empty(),
            out@ == before + press_events(edges@, cur@, i as int),
        decreases edges@.len() - i,
    {
        let (b, down) = edges[i];
        let k = if down {
            EventKind::Down(b)
        } else {
            EventKind::Up(b)
        };
        push_tagged(&mut out, cur, k, &none, false);
        i = i + 1;
        assert(out@ =~= before + press_events(edges@, cur@, i as int));
    }
    if scrolled {
        push_tagged(&mut out, cur, EventKind::Scroll, &none, false);
    }
    proof {
        assert(out@ =~= frame_events(prev@, cur@, moved, edges@, scrolled));
    }
    out
}

/// Whether events of `s` come in nondecreasing phase.
pub open spec fn phase_ordered(s: Seq<PointerEvent>) -> bool {
    forall|i: int, j: int|
        0 <= i < j < s.len() ==> phase((#[trigger] s[i]).kind) <= phase((#[trigger] s[j]).kind)
}

/// Whether every event of `s` has a phase in `lo..=hi`.
pub open spec fn phases_within(s: Seq<PointerEvent>, lo: int, hi: int) -> bool {
    forall|i: int| 0 <= i < s.len() ==> lo <= #[trigger] phase(s[i].kind) <= hi
}

pub(crate) proof fn lemma_tagged_kind(
    s: Seq<Entity>,
    k: EventKind,
    other: Seq<Entity>,
    inside: bool,
    n: int,
)
    requires
        n <= s.len(),
    ensures
        forall|i: int|
            0 <= i < tagged(s, k, other, inside, n).len() ==> (#[trigger] tagged(
                s,
                k,
                other,
                inside,
                n,
            )[i]).kind == k && other.contains(tagged(s, k, other, inside, n)[i].target) == inside
                && s.contains(tagged(s, k, other, inside, n)[i].target),
    decreases n,
{
    if n > 0 {
        lemma_tagged_kind(s, k, other, inside, n - 1);
        assert(s[n - 1] == s[n - 1]);
    }
}

proof fn lemma_press_phase(edges: Seq<(PointerButton, bool)>, cur: Seq<Entity>, n: int)
    ensures
        phases_within(press_events(edges, cur, n), 3, 3),
    decreases n,
{
    if n > 0 {
        lemma_press_phase(edges, cur, n - 1);
        let (b, down) = edges[n - 1];
        let k = if down {
            EventKind::Down(b)
        } else {
            EventKind::Up(b)
        };
        lemma_tagged_kind(cur, k, Seq::empty(), false, cur.len() as int);
        let a = press_events(edges, cur, n - 1);
        let t = tagged_all(cur, k, Seq::empty());
        assert forall|i: int| 0 <= i < (a + t).len() implies 3 <= #[trigger] phase(
            (a + t)[i].kind,
        ) <= 3 by {
            if i >= a.len() {
                assert((a + t)[i] == t[i - a.len()]);
            }
        }
    }
}

pub(crate) proof fn lemma_concat_ordered(a: Seq<PointerEvent>, b: Seq<PointerEvent>, lo: int, mid: int, hi: int)
    requires
        lo <= mid <= hi,
        phase_ordered(a),
        phase_ordered(b),
        phases_within(a, lo, mid),
        phases_within(b, mid, hi),
    ensures
        phase_ordered(a + b),
        phases_within(a + b, lo, hi),
{
    assert forall|i: int, j: int| 0 <= i < j < (a + b).len() implies phase(
        (#[trigger] (a + b)[i]).kind,
    ) <= phase((#[trigger] (a + b)[j]).kind) by {
        if i < a.len() && j >= a.len() {
            assert((a + b)[j] == b[j - a.len()]);
            assert((a + b)[i] == a[i]);
        } else if i >= a.len() {
            assert((a + b)[j] == b[j - a.len()]);
            assert((a + b)[i] == b[i - a.len()]);
        }
    }
    assert forall|i: int| 0 <= i < (a + b).len() implies lo <= #[trigger] phase(
        (a + b)[i].kind,
    ) <= hi by {
        if i >= a.len() {
            assert((a + b)[i] == b[i - a.len()]);
        } else {
            assert((a + b)[i] == a[i]);
        }
    }
}

pub(crate) proof fn lemma_single_phase(s: Seq<Entity>, k: EventKind, excl: Seq<Entity>)
    ensures
        phase_ordered(tagged_all(s, k, excl)),
        phases_within(tagged_all(s, k, excl), phase(k), phase(k)),
{
    lemma_tagged_kind(s, k, excl, false, s.len() as int);
}

/// Within one pointer's frame output every `Out` comes before every `Over`,
/// those before every `Move`, those before every `Down` and `Up`, and those
/// before every `Scroll`.
pub proof fn lemma_frame_events_ordered(
    prev: Seq<Entity>,
    cur: Seq<Entity>,
    moved: bool,
    edges: Seq<(PointerButton, bool)>,
    scrolled: bool,
)
    ensures
        phase_ordered(frame_events(prev, cur, moved, edges, scrolled)),
{
    let e = Seq::<Entity>::empty();
    let a = tagged_all(prev, EventKind::Out, cur);
    let b = tagged_all(cur, EventKind::Over, prev);
    let c = if moved {
        tagged_all(cur, EventKind::Move, e)
    } else {
        Seq::empty()
    };
    let d = press_events(edges, cur, edges.len() as int);
    let f = if scrolled {
        tagged_all(cur, EventKind::Scroll, e)
    } else {
        Seq::empty()
    };
    lemma_single_phase(prev, EventKind::Out, cur);
    lemma_single_phase(cur, EventKind::Over, prev);
    lemma_single_phase(cur, EventKind::Move, e);
    lemma_single_phase(cur, EventKind::Scroll, e);
    lemma_press_phase(edges, cur, edges.len() as int);
    assert(phase_ordered(d)) by {
        assert forall|i: int, j: int| 0 <= i < j < d.len() implies phase(
            (#[trigger] d[i]).kind,
        ) <= phase((#[trigger] d[j]).kind) by {
            assert(phase(d[i].kind) == 3 && phase(d[j].kind) == 3);
        }
    }
    lemma_concat_ordered(a, b, 0, 1, 1);
    lemma_concat_ordered(a + b, c, 0, 2, 2);
    lemma_concat_ordered(a + b + c, d, 0, 3, 3);
    lemma_concat_ordered(a + b + c + d, f, 0, 4, 4);
}

/// The union of events whose phases lie in one range stays in that range.
pub(crate) proof fn lemma_within_concat(a: Seq<PointerEvent>, b: Seq<PointerEvent>, lo: int, hi: int)
    requires
        phases_within(a, lo, hi),
        phases_within(b, lo, hi),
    ensures
        phases_within(a + b, lo, hi),
{
    assert forall|i: int| 0 <= i < (a + b).len() implies lo <= #[trigger] phase((a + b)[i].kind)
        <= hi by {
        if i < a.len() {
            assert((a + b)[i] == a[i]);
        } else {
            assert((a + b)[i] == b[i - a.len()]);
        }
    }
}

/// Events all of one phase are in order.
pub(crate) proof fn lemma_one_phase_ordered(s: Seq<PointerEvent>, p: int)
    requires
        phases_within(s, p, p),
    ensures
        phase_ordered(s),
{
    assert forall|i: int, j: int| 0 <= i < j < s.len() implies phase((#[trigger] s[i]).kind)
        <= phase((#[trigger] s[j]).kind) by {
        assert(phase(s[i].kind) == p && phase(s[j].kind) == p);
    }
}

/// Drop-target events come after every hover and input event.
pub(crate) proof fn lemma_drag_over_phase(
    b: PointerButton,
    drag_set: Seq<Entity>,
    prev: Seq<Entity>,
    cur: Seq<Entity>,
    moved: bool,
)
    ensures
        phases_within(drag_over_spec(b, drag_set, prev, cur, moved), 5, 5),
{
    lemma_single_phase(prev, EventKind::DragLeave(b), cur + drag_set);
    lemma_single_phase(cur, EventKind::DragEnter(b), prev + drag_set);
    lemma_single_phase(cur, EventKind::DragOver(b), drag_set);
    lemma_within_concat(
        tagged_all(prev, EventKind::DragLeave(b), cur + drag_set),
        tagged_all(cur, EventKind::DragEnter(b), prev + drag_set),
        5,
        5,
    );
    let o = if moved {
        tagged_all(cur, EventKind::DragOver(b), drag_set)
    } else {
        Seq::empty()
    };
    lemma_within_concat(
        tagged_all(prev, EventKind::DragLeave(b), cur + drag_set) + tagged_all(
            cur,
            EventKind::DragEnter(b),
            prev + drag_set,
        ),
        o,
        5,
        5,
    );
}

/// Drop-target events never go to an entity being dragged.
pub proof fn lemma_drag_over_spares_dragged(
    b: PointerButton,
    drag_set: Seq<Entity>,
    prev: Seq<Entity>,
    cur: Seq<Entity>,
    moved: bool,
)
    ensures
        forall|i: int|
            0 <= i < drag_over_spec(b, drag_set, prev, cur, moved).len() ==> !drag_set.contains(
                (#[trigger] drag_over_spec(b, drag_set, prev, cur, moved)[i]).target,
            ),
{
    let l = tagged_all(prev, EventKind::DragLeave(b), cur + drag_set);
    let e = tagged_all(cur, EventKind::DragEnter(b), prev + drag_set);
    let o = if moved {
        tagged_all(cur, EventKind::DragOver(b), drag_set)
    } else {
        Seq::empty()
    };
    lemma_tagged_kind(prev, EventKind::DragLeave(b), cur + drag_set, false, prev.len() as int);
    lemma_tagged_kind(cur, EventKind::DragEnter(b), prev + drag_set, false, cur.len() as int);
    lemma_tagged_kind(cur, EventKind::DragOver(b), drag_set, false, cur.len() as int);
    let r = drag_over_spec(b, drag_set, prev, cur, moved);
    assert(r == l + e + o);
    assert forall|i: int| 0 <= i < r.len() implies !drag_set.contains((#[trigger] r[i]).target) by {
        let t = r[i].target;
        if drag_set.contains(t) {
            let j = choose|j: int| 0 <= j < drag_set.len() && drag_set[j] == t;
            assert((cur + drag_set)[cur.len() + j] == t);
            assert((prev + drag_set)[prev.len() + j] == t);
        }
        if i < l.len() {
            assert(r[i] == l[i]);
        } else if i < l.len() + e.len() {
            assert(r[i] == e[i - l.len()]);
        } else {
            assert(r[i] == o[i - l.len() - e.len()]);
        }
    }
}

} // verus!
