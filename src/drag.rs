//! The click and drag state machine of one pointer button.
use vstd::prelude::*;
use crate::Entity;
use crate::pointer::{Location, PointerButton};
use crate::events::{
    DragDelta, EventKind, PointerEvent, kind_button, tagged, tagged_all, tagged_among, push_tagged,
    lemma_tagged_kind,
};

verus! {

/// What happened to one pointer button in a frame.
#[derive(Clone, Copy, Debug, PartialEq, Eq, Structural)]
pub enum ButtonInput {
    /// The button went down, with the pointer at `at` if it had a location.
    Press { at: Option<Location> },
    /// The button went up.
    Release,
    /// The pointer moved to `(x, y)`.
    Move { x: i32, y: i32 },
    /// The pointer's interaction was cancelled.
    Cancel,
}

/// The state of one pointer button.
pub enum ButtonState {
    /// The button is up.
    Idle,
    /// The button is down and the pointer has not moved since.
    Pressed {
        /// The entities hovered when the button went down.
        down_on: Vec<Entity>,
        /// Where the button went down, if the pointer had a location.
        at: Option<Location>,
    },
    /// The button is down and the pointer has moved: a drag is in progress.
    Dragging {
        /// The entities being dragged: those hovered when the button went down.
        drag_set: Vec<Entity>,
        /// Where the drag began.
        origin_x: i32,
        /// Where the drag began.
        origin_y: i32,
        /// The pointer's latest position.
        x: i32,
        /// The pointer's latest position.
        y: i32,
        /// The movement of the latest move, horizontally.
        delta_x: i64,
        /// The movement of the latest move, vertically.
        delta_y: i64,
    },
}

/// The mathematical value of a button state.
pub enum ButtonModel {
    /// The button is up.
    Idle,
    /// The button is down, no move yet.
    Pressed { down_on: Seq<Entity>, at: Option<Location> },
    /// A drag is in progress.
    Dragging {
        drag_set: Seq<Entity>,
        origin_x: i32,
        origin_y: i32,
        x: i32,
        y: i32,
        delta_x: i64,
        delta_y: i64,
    },
}

impl View for ButtonState {
    type V = ButtonModel;

    open spec fn view(&self) -> ButtonModel {
        match self {
            ButtonState::Idle => ButtonModel::Idle,
            ButtonState::Pressed { down_on, at } => ButtonModel::Pressed { down_on: down_on@, at: *at },
            ButtonState::Dragging { drag_set, origin_x, origin_y, x, y, delta_x, delta_y } =>
                ButtonModel::Dragging {
                drag_set: drag_set@,
                origin_x: *origin_x,
                origin_y: *origin_y,
                x: *x,
                y: *y,
                delta_x: *delta_x,
                delta_y: *delta_y,
            },
        }
    }
}

/// The horizontal origin of a drag that begins with a move to `x`.
pub open spec fn origin_x_of(at: Option<Location>, x: i32) -> i32 {
    match at {
        Some(l) => l.x,
        None => x,
    }
}

/// The vertical origin of a drag that begins with a move to `y`.
pub open spec fn origin_y_of(at: Option<Location>, y: i32) -> i32 {
    match at {
        Some(l) => l.y,
        None => y,
    }
}

/// The state after `input`, with `hovered` the pointer's current hover set.
/// A drag's origin is where the button went down, or where the first move
/// went if the pointer had no location then.
pub open spec fn next_model(m: ButtonModel, input: ButtonInput, hovered: Seq<Entity>) -> ButtonModel {
    match (m, input) {
        (ButtonModel::Idle, ButtonInput::Press { at }) => ButtonModel::Pressed { down_on: hovered, at },
        (ButtonModel::Pressed { down_on, at }, ButtonInput::Move { x, y }) => ButtonModel::Dragging {
            drag_set: down_on,
            origin_x: origin_x_of(at, x),
            origin_y: origin_y_of(at, y),
            x,
            y,
            delta_x: (x - origin_x_of(at, x)) as i64,
            delta_y: (y - origin_y_of(at, y)) as i64,
        },
        (
            ButtonModel::Dragging { drag_set, origin_x, origin_y, x: lx, y: ly, .. },
            ButtonInput::Move { x, y },
        ) => ButtonModel::Dragging {
            drag_set,
            origin_x,
            origin_y,
            x,
            y,
            delta_x: (x - lx) as i64,
            delta_y: (y - ly) as i64,
        },
        (_, ButtonInput::Release) => ButtonModel::Idle,
        (_, ButtonInput::Cancel) => ButtonModel::Idle,
        _ => m,
    }
}

/// The `Drop` of a release that ends a drag: one event, to the nearest hovered
/// entity, or none if nothing is hovered.
pub open spec fn drop_event(b: PointerButton, hovered: Seq<Entity>) -> Seq<PointerEvent> {
    if hovered.len() > 0 {
        seq![PointerEvent { kind: EventKind::Drop(b), target: hovered[0] }]
    } else {
        Seq::empty()
    }
}

/// The clicks that `input` produces: on release, to every hovered entity
/// that the button was pressed on.
pub open spec fn click_events(
    m: ButtonModel,
    b: PointerButton,
    input: ButtonInput,
    hovered: Seq<Entity>,
) -> Seq<PointerEvent> {
    match (m, input) {
        (ButtonModel::Pressed { down_on, .. }, ButtonInput::Release) => tagged_among(
            hovered,
            EventKind::Click(b),
            down_on,
        ),
        (ButtonModel::Dragging { drag_set, .. }, ButtonInput::Release) => tagged_among(
            hovered,
            EventKind::Click(b),
            drag_set,
        ),
        _ => Seq::empty(),
    }
}

/// The drag and cancellation events that `input` produces.
pub open spec fn drag_events(
    m: ButtonModel,
    b: PointerButton,
    input: ButtonInput,
    hovered: Seq<Entity>,
) -> Seq<PointerEvent> {
    let none = Seq::<Entity>::empty();
    match (m, input) {
        (ButtonModel::Pressed { down_on, .. }, ButtonInput::Move { .. }) => tagged_all(
            down_on,
            EventKind::DragStart(b),
            none,
        ),
        (
            ButtonModel::Dragging { drag_set, origin_x, origin_y, x: lx, y: ly, .. },
            ButtonInput::Move { x, y },
        ) => tagged_all(
            drag_set,
            EventKind::Drag(
                b,
                DragDelta {
                    delta_x: (x - lx) as i64,
                    delta_y: (y - ly) as i64,
                    distance_x: (x - origin_x) as i64,
                    distance_y: (y - origin_y) as i64,
                },
            ),
            none,
        ),
        (ButtonModel::Dragging { drag_set, .. }, ButtonInput::Release) => tagged_all(
            drag_set,
            EventKind::DragEnd(b),
            none,
        ) + drop_event(b, hovered),
        (ButtonModel::Pressed { down_on, .. }, ButtonInput::Cancel) => tagged_all(
            down_on,
            EventKind::Cancel,
            none,
        ),
        (ButtonModel::Dragging { drag_set, .. }, ButtonInput::Cancel) => tagged_all(
            drag_set,
            EventKind::DragEnd(b),
            none,
        ) + tagged_all(drag_set, EventKind::Cancel, none),
        _ => Seq::empty(),
    }
}

/// Every event that `input` produces for this button: its clicks, then its
/// drag and cancellation events.
pub open spec fn step_events(
    m: ButtonModel,
    b: PointerButton,
    input: ButtonInput,
    hovered: Seq<Entity>,
) -> Seq<PointerEvent> {
    click_events(m, b, input, hovered) + drag_events(m, b, input, hovered)
}

impl ButtonState {
    /// A button that is up.
    pub fn new() -> (r: Self)
        ensures
            r@ == ButtonModel::Idle,
    {
        ButtonState::Idle
    }

    /// Whether a drag is in progress.
    pub fn is_dragging(&self) -> (r: bool)
        ensures
            r == (self@ is Dragging),
    {
        match self {
            ButtonState::Dragging { .. } => true,
            _ => false,
        }
    }

    /// The entities being dragged, if a drag is in progress.
    pub fn drag_set(&self) -> (r: Option<&Vec<Entity>>)
        ensures
            match self@ {
                ButtonModel::Dragging { drag_set, .. } => r.is_some() && r.unwrap()@ == drag_set,
                _ => r.is_none(),
            },
    {
        match self {
            ButtonState::Dragging { drag_set, .. } => Some(drag_set),
            _ => None,
        }
    }

    /// Applies one input of button `b` and returns the clicks it causes and,
    /// apart, the drag and cancellation events: `DragStart` to the entities
    /// pressed on at the first move, `Drag` with the movement to them at each
    /// later move, and on release `Click` to the hovered entities that were
    /// pressed on, then, after a drag, `DragEnd` to the dragged entities and
    /// one `Drop` to the nearest hovered entity. A cancellation ends a drag
    /// with `DragEnd` and no `Drop`, and sends `Cancel` instead of `Click`.
    pub fn step(&mut self, b: PointerButton, input: ButtonInput, hovered: &Vec<Entity>) -> (r: (
        Vec<PointerEvent>,
        Vec<PointerEvent>,
    ))
        ensures
            final(self)@ == next_model(old(self)@, input, hovered@),
            r.0@ == click_events(old(self)@, b, input, hovered@),
            r.1@ == drag_events(old(self)@, b, input, hovered@),
    {
        let none: Vec<Entity> = Vec::new();
        let mut clicks: Vec<PointerEvent> = Vec::new();
        let mut out: Vec<PointerEvent> = Vec::new();
        let mut st = ButtonState::Idle;
        std::mem::swap(self, &mut st);
        let ghost m = st@;
        match st {
            ButtonState::Idle => {
                match input {
                    ButtonInput::Press { at } => {
                        *self = ButtonState::Pressed { down_on: hovered.clone(), at };
                    },
                    _ => {},
                }
            },
            ButtonState::Pressed { down_on, at } => {
                match input {
                    ButtonInput::Move { x, y } => {
                        push_tagged(&mut out, &down_on, EventKind::DragStart(b), &none, false);
                        let (ox, oy) = match at {
                            Some(l) => (l.x, l.y),
                            None => (x, y),
                        };
                        *self = ButtonState::Dragging {
                            drag_set: down_on,
                            origin_x: ox,
                            origin_y: oy,
                            x,
                            y,
                            delta_x: x as i64 - ox as i64,
                            delta_y: y as i64 - oy as i64,
                        };
                    },
                    ButtonInput::Release => {
                        push_tagged(&mut clicks, hovered, EventKind::Click(b), &down_on, true);
                    },
                    ButtonInput::Cancel => {
                        push_tagged(&mut out, &down_on, EventKind::Cancel, &none, false);
                    },
                    ButtonInput::Press { .. } => {
                        *self = ButtonState::Pressed { down_on, at };
                    },
                }
            },
            ButtonState::Dragging { drag_set, origin_x, origin_y, x: lx, y: ly, delta_x, delta_y } => {
                match input {
                    ButtonInput::Move { x, y } => {
                        let d = DragDelta {
                            delta_x: x as i64 - lx as i64,
                            delta_y: y as i64 - ly as i64,
                            distance_x: x as i64 - origin_x as i64,
                            distance_y: y as i64 - origin_y as i64,
                        };
                        push_tagged(&mut out, &drag_set, EventKind::Drag(b, d), &none, false);
                        *self = ButtonState::Dragging {
                            drag_set,
                            origin_x,
                            origin_y,
                            x,
                            y,
                            delta_x: d.delta_x,
                            delta_y: d.delta_y,
                        };
                    },
                    ButtonInput::Release => {
                        push_tagged(&mut clicks, hovered, EventKind::Click(b), &drag_set, true);
                        push_tagged(&mut out, &drag_set, EventKind::DragEnd(b), &none, false);
                        if hovered.len() > 0 {
                            out.push(PointerEvent { kind: EventKind::Drop(b), target: hovered[0] });
                        }
                    },
                    ButtonInput::Cancel => {
                        push_tagged(&mut out, &drag_set, EventKind::DragEnd(b), &none, false);
                        push_tagged(&mut out, &drag_set, EventKind::Cancel, &none, false);
                    },
                    ButtonInput::Press { .. } => {
                        *self = ButtonState::Dragging {
                            drag_set,
                            origin_x,
                            origin_y,
                            x: lx,
                            y: ly,
                            delta_x,
                            delta_y,
                        };
                    },
                }
            },
        }
        proof {
            assert(out@ =~= drag_events(m, b, input, hovered@));
            assert(clicks@ =~= click_events(m, b, input, hovered@));
        }
        (clicks, out)
    }
}

/// The entities a held button was pressed on; empty while it is up.
pub open spec fn pressed_on(m: ButtonModel) -> Seq<Entity> {
    match m {
        ButtonModel::Idle => Seq::empty(),
        ButtonModel::Pressed { down_on, .. } => down_on,
        ButtonModel::Dragging { drag_set, .. } => drag_set,
    }
}

/// What each event of one step says about that step: its clicks are `Click`
/// events of the button, its other events are drag, drop or cancellation
/// events, and each kind comes only from the states and inputs listed.
pub proof fn lemma_step_event_facts(m: ButtonModel, b: PointerButton, input: ButtonInput, hovered: Seq<Entity>)
    ensures
        forall|i: int|
            0 <= i < click_events(m, b, input, hovered).len() ==> (#[trigger] click_events(
                m,
                b,
                input,
                hovered,
            )[i]).kind == EventKind::Click(b),
        forall|i: int|
            0 <= i < drag_events(m, b, input, hovered).len() ==> {
                let k = (#[trigger] drag_events(m, b, input, hovered)[i]).kind;
                k is DragStart || k is Drag || k is DragEnd || k is Drop || k is Cancel
            },
        forall|i: int|
            0 <= i < step_events(m, b, input, hovered).len() ==> {
                let ev = #[trigger] step_events(m, b, input, hovered)[i];
                &&& !(ev.kind is Cancel) ==> kind_button(ev.kind) == Some(b)
                &&& ev.kind is Click ==> input is Release && hovered.contains(ev.target)
                    && pressed_on(m).contains(ev.target)
                &&& ev.kind is DragStart ==> m is Pressed && input is Move && pressed_on(m).contains(
                    ev.target,
                )
                &&& ev.kind is Drag ==> m is Dragging && input is Move && pressed_on(m).contains(
                    ev.target,
                )
                &&& ev.kind is DragEnd ==> m is Dragging && (input is Release || input is Cancel)
                    && pressed_on(m).contains(ev.target)
                &&& ev.kind is Drop ==> m is Dragging && input is Release && hovered.len() > 0
                    && ev.target == hovered[0] && i == step_events(m, b, input, hovered).len() - 1
            },
{
    let none = Seq::<Entity>::empty();
    let p = pressed_on(m);
    lemma_tagged_kind(p, EventKind::DragStart(b), none, false, p.len() as int);
    lemma_tagged_kind(p, EventKind::DragEnd(b), none, false, p.len() as int);
    lemma_tagged_kind(p, EventKind::Cancel, none, false, p.len() as int);
    lemma_tagged_kind(hovered, EventKind::Click(b), p, true, hovered.len() as int);
    if let (ButtonModel::Dragging { origin_x, origin_y, x: lx, y: ly, .. }, ButtonInput::Move { x, y }) = (
    m, input) {
        let d = DragDelta {
            delta_x: (x - lx) as i64,
            delta_y: (y - ly) as i64,
            distance_x: (x - origin_x) as i64,
            distance_y: (y - origin_y) as i64,
        };
        lemma_tagged_kind(p, EventKind::Drag(b, d), none, false, p.len() as int);
    }
    let c = click_events(m, b, input, hovered);
    let g = drag_events(m, b, input, hovered);
    let e = step_events(m, b, input, hovered);
    let de = tagged_all(p, EventKind::DragEnd(b), none);
    let ca = tagged_all(p, EventKind::Cancel, none);
    let dr = drop_event(b, hovered);
    assert forall|i: int| 0 <= i < g.len() implies {
        let k = (#[trigger] g[i]).kind;
        k is DragStart || k is Drag || k is DragEnd || k is Drop || k is Cancel
    } by {
        if m is Dragging && input is Release {
            if i >= de.len() {
                assert(g[i] == dr[i - de.len()]);
            } else {
                assert(g[i] == de[i]);
            }
        } else if m is Dragging && input is Cancel {
            if i >= de.len() {
                assert(g[i] == ca[i - de.len()]);
            } else {
                assert(g[i] == de[i]);
            }
        }
    }
    assert forall|i: int| 0 <= i < e.len() implies {
        let ev = #[trigger] e[i];
        &&& !(ev.kind is Cancel) ==> kind_button(ev.kind) == Some(b)
        &&& ev.kind is Click ==> input is Release && hovered.contains(ev.target) && p.contains(
            ev.target,
        )
        &&& ev.kind is DragStart ==> m is Pressed && input is Move && p.contains(ev.target)
        &&& ev.kind is Drag ==> m is Dragging && input is Move && p.contains(ev.target)
        &&& ev.kind is DragEnd ==> m is Dragging && (input is Release || input is Cancel)
            && p.contains(ev.target)
        &&& ev.kind is Drop ==> m is Dragging && input is Release && hovered.len() > 0 && ev.target
            == hovered[0] && i == e.len() - 1
    } by {
        if i < c.len() {
            assert(e[i] == c[i]);
        } else {
            let j = i - c.len();
            assert(e[i] == g[j]);
            if m is Dragging && input is Release {
                if j >= de.len() {
                    assert(g[j] == dr[j - de.len()]);
                } else {
                    assert(g[j] == de[j]);
                }
            } else if m is Dragging && input is Cancel {
                if j >= de.len() {
                    assert(g[j] == ca[j - de.len()]);
                } else {
                    assert(g[j] == de[j]);
                }
            }
        }
    }
}

/// A click goes only to an entity that the button was pressed on, while no
/// cancellation came between, and that is still hovered when the button is
/// released: a press from the up state records the hover set that received
/// `Down`, every later step keeps it until a release or a cancellation, and a
/// cancellation forgets it without any click.
pub proof fn lemma_click_needs_press(
    m: ButtonModel,
    b: PointerButton,
    input: ButtonInput,
    hovered: Seq<Entity>,
)
    ensures
        forall|i: int|
            0 <= i < step_events(m, b, input, hovered).len() && (#[trigger] step_events(
                m,
                b,
                input,
                hovered,
            )[i]).kind is Click ==> step_events(m, b, input, hovered)[i].kind == EventKind::Click(b)
                && input is Release && hovered.contains(step_events(m, b, input, hovered)[i].target)
                && pressed_on(m).contains(step_events(m, b, input, hovered)[i].target),
        m is Idle && input is Press ==> pressed_on(next_model(m, input, hovered)) == hovered,
        m is Idle && !(input is Press) ==> (next_model(m, input, hovered) is Idle),
        !(m is Idle) && !(input is Release) && !(input is Cancel) ==> pressed_on(
            next_model(m, input, hovered),
        ) == pressed_on(m),
        input is Cancel ==> next_model(m, input, hovered) is Idle && forall|i: int|
            0 <= i < step_events(m, b, input, hovered).len() ==> !((#[trigger] step_events(
                m,
                b,
                input,
                hovered,
            )[i]).kind is Click),
{
    lemma_step_event_facts(m, b, input, hovered);
}

/// A drag session runs `DragStart`, then `Drag` at each move, then `DragEnd`
/// once when the button is released or cancelled: `DragStart` only opens a
/// drag, `Drag` only continues one, and a drag is left only by a step that
/// sends `DragEnd` to every dragged entity. `Drop` comes at most once, only
/// with the release that ends a drag, and only to the nearest entity hovered
/// at that moment, which may or may not be dragged.
pub proof fn lemma_drag_session(
    m: ButtonModel,
    b: PointerButton,
    input: ButtonInput,
    hovered: Seq<Entity>,
)
    ensures
        forall|i: int|
            0 <= i < step_events(m, b, input, hovered).len() ==> {
                let ev = #[trigger] step_events(m, b, input, hovered)[i];
                &&& ev.kind is DragStart ==> m is Pressed && next_model(m, input, hovered) is Dragging
                &&& ev.kind is Drag ==> m is Dragging && next_model(m, input, hovered) is Dragging
                &&& ev.kind is DragEnd ==> m is Dragging && next_model(m, input, hovered) is Idle
                &&& ev.kind is Drop ==> m is Dragging && input is Release && next_model(
                    m,
                    input,
                    hovered,
                ) is Idle && hovered.len() > 0 && ev.target == hovered[0]
            },
        forall|i: int, j: int|
            0 <= i < j < step_events(m, b, input, hovered).len() ==> !((#[trigger] step_events(
                m,
                b,
                input,
                hovered,
            )[i]).kind is Drop && (#[trigger] step_events(m, b, input, hovered)[j]).kind is Drop),
        m is Dragging && input is Release && hovered.len() > 0 ==> step_events(
            m,
            b,
            input,
            hovered,
        ).last() == (PointerEvent { kind: EventKind::Drop(b), target: hovered[0] }),
        m is Dragging && !(next_model(m, input, hovered) is Dragging) ==> step_events(
            m,
            b,
            input,
            hovered,
        ).len() >= pressed_on(m).len() && forall|j: int|
            0 <= j < pressed_on(m).len() ==> exists|i: int|
                0 <= i < step_events(m, b, input, hovered).len() && #[trigger] step_events(
                    m,
                    b,
                    input,
                    hovered,
                )[i] == (PointerEvent { kind: EventKind::DragEnd(b), target: #[trigger] pressed_on(m)[j] }),
        m is Dragging && next_model(m, input, hovered) is Dragging ==> pressed_on(
            next_model(m, input, hovered),
        ) == pressed_on(m),
{
    lemma_step_event_facts(m, b, input, hovered);
    let e = step_events(m, b, input, hovered);
    if m is Dragging && input is Release && hovered.len() > 0 {
        let c = click_events(m, b, input, hovered);
        let g = drag_events(m, b, input, hovered);
        assert(e[e.len() - 1] == g[g.len() - 1]);
    }
    if m is Dragging && !(next_model(m, input, hovered) is Dragging) {
        let p = pressed_on(m);
        let none = Seq::<Entity>::empty();
        let d = tagged_all(p, EventKind::DragEnd(b), none);
        lemma_tagged_all_covers(p, EventKind::DragEnd(b));
        let c = click_events(m, b, input, hovered);
        let off = c.len();
        if input is Release {
            assert(e == c + (d + drop_event(b, hovered)));
        } else {
            assert(e == c + (d + tagged_all(p, EventKind::Cancel, none)));
        }
        assert forall|j: int| 0 <= j < p.len() implies exists|i: int|
            0 <= i < e.len() && #[trigger] e[i] == (PointerEvent {
                kind: EventKind::DragEnd(b),
                target: #[trigger] p[j],
            }) by {
            assert(d[j] == PointerEvent { kind: EventKind::DragEnd(b), target: p[j] });
            assert(e[off + j] == d[j]);
        }
    }
}

proof fn lemma_tagged_all_covers(s: Seq<Entity>, k: EventKind)
    ensures
        tagged(s, k, Seq::empty(), false, s.len() as int).len() == s.len(),
        forall|j: int|
            0 <= j < s.len() ==> #[trigger] tagged(s, k, Seq::empty(), false, s.len() as int)[j]
                == (PointerEvent { kind: k, target: s[j] }),
{
    lemma_tagged_covers_upto(s, k, s.len() as int);
}

proof fn lemma_tagged_covers_upto(s: Seq<Entity>, k: EventKind, n: int)
    requires
        0 <= n <= s.len(),
    ensures
        tagged(s, k, Seq::empty(), false, n).len() == n,
        forall|j: int|
            0 <= j < n ==> #[trigger] tagged(s, k, Seq::empty(), false, n)[j] == (PointerEvent {
                kind: k,
                target: s[j],
            }),
    decreases n,
{
    if n > 0 {
        lemma_tagged_covers_upto(s, k, n - 1);
    }
}

/// The state after each input of `tr` in turn, starting from `m`; each input
/// comes with the pointer's hover set at that moment.
pub open spec fn run_state(m: ButtonModel, tr: Seq<(ButtonInput, Seq<Entity>)>) -> ButtonModel
    decreases tr.len(),
{
    if tr.len() == 0 {
        m
    } else {
        next_model(run_state(m, tr.drop_last()), tr.last().0, tr.last().1)
    }
}

/// How many steps of `tr` open a drag.
pub open spec fn drag_starts(m: ButtonModel, tr: Seq<(ButtonInput, Seq<Entity>)>) -> nat
    decreases tr.len(),
{
    if tr.len() == 0 {
        0
    } else {
        let p = run_state(m, tr.drop_last());
        let n = next_model(p, tr.last().0, tr.last().1);
        drag_starts(m, tr.drop_last()) + if p is Pressed && n is Dragging {
            1nat
        } else {
            0nat
        }
    }
}

/// How many steps of `tr` close a drag.
pub open spec fn drag_ends(m: ButtonModel, tr: Seq<(ButtonInput, Seq<Entity>)>) -> nat
    decreases tr.len(),
{
    if tr.len() == 0 {
        0
    } else {
        let p = run_state(m, tr.drop_last());
        let n = next_model(p, tr.last().0, tr.last().1);
        drag_ends(m, tr.drop_last()) + if p is Dragging && !(n is Dragging) {
            1nat
        } else {
            0nat
        }
    }
}

/// Over any run of inputs from the up state, drags open and close in turn:
/// every closed drag was opened once, and at most one drag is open at the end.
/// With the step law above, each opening step is the only one that sends
/// `DragStart` and each closing step the only one that sends `DragEnd`.
pub proof fn lemma_drag_sessions_balance(m: ButtonModel, tr: Seq<(ButtonInput, Seq<Entity>)>)
    requires
        m is Idle,
    ensures
        drag_starts(m, tr) == drag_ends(m, tr) + if run_state(m, tr) is Dragging {
            1nat
        } else {
            0nat
        },
    decreases tr.len(),
{
    if tr.len() > 0 {
        lemma_drag_sessions_balance(m, tr.drop_last());
    }
}

/// Whether step `k` of `tr` presses the button while it is up.
pub open spec fn press_from_idle(m: ButtonModel, tr: Seq<(ButtonInput, Seq<Entity>)>, k: int) -> bool {
    0 <= k < tr.len() && tr[k].0 is Press && run_state(m, tr.take(k)) is Idle
}

/// Whether no step of `tr` after `k` and before `end` releases or cancels.
pub open spec fn held_between(tr: Seq<(ButtonInput, Seq<Entity>)>, k: int, end: int) -> bool {
    forall|q: int| k < q < end ==> !((#[trigger] tr[q]).0 is Release) && !(tr[q].0 is Cancel)
}

proof fn lemma_held_since_press(m: ButtonModel, tr: Seq<(ButtonInput, Seq<Entity>)>)
    requires
        m is Idle,
        !(run_state(m, tr) is Idle),
    ensures
        exists|k: int|
            #[trigger] press_from_idle(m, tr, k) && held_between(tr, k, tr.len() as int) && pressed_on(
                run_state(m, tr),
            ) == tr[k].1,
    decreases tr.len(),
{
    let d = tr.drop_last();
    let p = run_state(m, d);
    let (input, h) = tr.last();
    lemma_click_needs_press(p, PointerButton::Primary, input, h);
    assert(tr.take(tr.len() - 1) =~= d);
    if p is Idle {
        let k = tr.len() - 1;
        assert(press_from_idle(m, tr, k));
    } else {
        lemma_held_since_press(m, d);
        let k = choose|k: int|
            #[trigger] press_from_idle(m, d, k) && held_between(d, k, d.len() as int) && pressed_on(
                run_state(m, d),
            ) == d[k].1;
        assert(tr.take(k) =~= d.take(k));
        assert(d[k] == tr[k]);
        assert forall|q: int| k < q < tr.len() implies !((#[trigger] tr[q]).0 is Release) && !(
        tr[q].0 is Cancel) by {
            if q < tr.len() - 1 {
                assert(d[q] == tr[q]);
            }
        }
        assert(press_from_idle(m, tr, k));
    }
}

/// Over any run of inputs from the up state, a click to `e` at the last step
/// needs an earlier press, made while the button was up, with `e` hovered
/// (so `e` received that press's `Down`), no release or cancellation since,
/// and `e` still hovered at the release that clicks.
pub proof fn lemma_click_needs_earlier_press(
    m: ButtonModel,
    b: PointerButton,
    tr: Seq<(ButtonInput, Seq<Entity>)>,
    e: Entity,
)
    requires
        m is Idle,
        tr.len() > 0,
        step_events(run_state(m, tr.drop_last()), b, tr.last().0, tr.last().1).contains(
            PointerEvent { kind: EventKind::Click(b), target: e },
        ),
    ensures
        tr.last().0 is Release,
        tr.last().1.contains(e),
        exists|k: int|
            #[trigger] press_from_idle(m, tr, k) && k < tr.len() - 1 && held_between(
                tr,
                k,
                tr.len() - 1,
            ) && tr[k].1.contains(e),
{
    let d = tr.drop_last();
    let p = run_state(m, d);
    let (input, h) = tr.last();
    let ev = step_events(p, b, input, h);
    lemma_click_needs_press(p, b, input, h);
    let i = choose|i: int| 0 <= i < ev.len() && ev[i] == PointerEvent { kind: EventKind::Click(b), target: e };
    assert(ev[i].kind is Click);
    assert(!(p is Idle));
    lemma_held_since_press(m, d);
    let k = choose|k: int|
        #[trigger] press_from_idle(m, d, k) && held_between(d, k, d.len() as int) && pressed_on(p)
            == d[k].1;
    assert(tr.take(k) =~= d.take(k));
    assert(d[k] == tr[k]);
    assert forall|q: int| k < q < tr.len() - 1 implies !((#[trigger] tr[q]).0 is Release) && !(
    tr[q].0 is Cancel) by {
        assert(d[q] == tr[q]);
    }
    assert(press_from_idle(m, tr, k));
}

/// Whether every input of `tr` is a move.
pub open spec fn all_moves(tr: Seq<(ButtonInput, Seq<Entity>)>) -> bool {
    forall|q: int| 0 <= q < tr.len() ==> (#[trigger] tr[q]).0 is Move
}

proof fn lemma_dragging_through_moves(
    at: Option<Location>,
    h0: Seq<Entity>,
    moves: Seq<(ButtonInput, Seq<Entity>)>,
    n: int,
)
    requires
        1 <= n <= moves.len(),
        all_moves(moves),
    ensures
        run_state(ButtonModel::Idle, seq![(ButtonInput::Press { at }, h0)] + moves.take(n)) is Dragging,
        pressed_on(run_state(ButtonModel::Idle, seq![(ButtonInput::Press { at }, h0)] + moves.take(n)))
            == h0,
    decreases n,
{
    let tr = seq![(ButtonInput::Press { at }, h0)] + moves.take(n);
    let d = seq![(ButtonInput::Press { at }, h0)] + moves.take(n - 1);
    assert(tr.drop_last() =~= d);
    assert(tr.last() == moves[n - 1]);
    assert(moves[n - 1].0 is Move);
    if n == 1 {
        let one = seq![(ButtonInput::Press { at }, h0)];
        assert(d =~= one);
        assert(one.drop_last() =~= Seq::<(ButtonInput, Seq<Entity>)>::empty());
        assert(one.last() == (ButtonInput::Press { at }, h0));
        assert(run_state(ButtonModel::Idle, Seq::<(ButtonInput, Seq<Entity>)>::empty())
            == ButtonModel::Idle);
        assert(run_state(ButtonModel::Idle, one) == ButtonModel::Pressed { down_on: h0, at });
    } else {
        lemma_dragging_through_moves(at, h0, moves, n - 1);
    }
}

/// A press over `h0` from the up state, then moves, then a release over `hr`:
/// the first move sends `DragStart` to `h0` and nothing else, every later move
/// sends only `Drag` to `h0`, and the release sends the clicks, `DragEnd` to
/// `h0` and one `Drop` to the nearest entity of `hr`, if there is one, and
/// leaves the button up.
pub proof fn lemma_press_move_release(
    b: PointerButton,
    at: Option<Location>,
    h0: Seq<Entity>,
    moves: Seq<(ButtonInput, Seq<Entity>)>,
    hr: Seq<Entity>,
)
    requires
        moves.len() >= 1,
        all_moves(moves),
    ensures
        step_events(
            run_state(ButtonModel::Idle, seq![(ButtonInput::Press { at }, h0)]),
            b,
            moves[0].0,
            moves[0].1,
        ) == tagged_all(h0, EventKind::DragStart(b), Seq::empty()),
        forall|q: int|
            1 <= q < moves.len() ==> {
                let evs = #[trigger] step_events(
                    run_state(ButtonModel::Idle, seq![(ButtonInput::Press { at }, h0)] + moves.take(q)),
                    b,
                    moves[q].0,
                    moves[q].1,
                );
                forall|i: int|
                    0 <= i < evs.len() ==> (#[trigger] evs[i]).kind is Drag && h0.contains(
                        evs[i].target,
                    )
            },
        ({
            let last = run_state(ButtonModel::Idle, seq![(ButtonInput::Press { at }, h0)] + moves);
            &&& step_events(last, b, ButtonInput::Release, hr) == tagged_among(
                hr,
                EventKind::Click(b),
                h0,
            ) + tagged_all(h0, EventKind::DragEnd(b), Seq::empty()) + drop_event(b, hr)
            &&& next_model(last, ButtonInput::Release, hr) is Idle
        }),
{
    let one = seq![(ButtonInput::Press { at }, h0)];
    assert(one.drop_last() =~= Seq::<(ButtonInput, Seq<Entity>)>::empty());
    assert(moves[0].0 is Move);
    assert(one.last() == (ButtonInput::Press { at }, h0));
    assert(run_state(ButtonModel::Idle, Seq::<(ButtonInput, Seq<Entity>)>::empty()) == ButtonModel::Idle);
    assert(run_state(ButtonModel::Idle, one) == ButtonModel::Pressed { down_on: h0, at });
    assert(step_events(run_state(ButtonModel::Idle, one), b, moves[0].0, moves[0].1) =~= tagged_all(
        h0,
        EventKind::DragStart(b),
        Seq::empty(),
    ));
    assert forall|q: int| 1 <= q < moves.len() implies {
        let evs = #[trigger] step_events(
            run_state(ButtonModel::Idle, seq![(ButtonInput::Press { at }, h0)] + moves.take(q)),
            b,
            moves[q].0,
            moves[q].1,
        );
        forall|i: int| 0 <= i < evs.len() ==> (#[trigger] evs[i]).kind is Drag && h0.contains(evs[i].target)
    } by {
        lemma_dragging_through_moves(at, h0, moves, q);
        let st = run_state(ButtonModel::Idle, seq![(ButtonInput::Press { at }, h0)] + moves.take(q));
        assert(moves[q].0 is Move);
        if let (
            ButtonModel::Dragging { drag_set, origin_x, origin_y, x: lx, y: ly, .. },
            ButtonInput::Move { x, y },
        ) = (st, moves[q].0) {
            let k = EventKind::Drag(
                b,
                DragDelta {
                    delta_x: (x - lx) as i64,
                    delta_y: (y - ly) as i64,
                    distance_x: (x - origin_x) as i64,
                    distance_y: (y - origin_y) as i64,
                },
            );
            lemma_tagged_kind(drag_set, k, Seq::empty(), false, drag_set.len() as int);
            assert(step_events(st, b, moves[q].0, moves[q].1) =~= tagged_all(drag_set, k, Seq::empty()));
        }
    }
    lemma_dragging_through_moves(at, h0, moves, moves.len() as int);
    assert(moves.take(moves.len() as int) =~= moves);
    let last = run_state(ButtonModel::Idle, seq![(ButtonInput::Press { at }, h0)] + moves);
    assert(step_events(last, b, ButtonInput::Release, hr) =~= tagged_among(hr, EventKind::Click(b), h0)
        + tagged_all(h0, EventKind::DragEnd(b), Seq::empty()) + drop_event(b, hr));
}

} // verus!
