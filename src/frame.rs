//! One pointer's complete event output for a frame, in the fixed order.
use vstd::prelude::*;
use crate::Entity;
use crate::pointer::{Location, PointerButton};
use crate::events::{
    EventKind, PointerEvent, phase_ordered, phases_within, tagged_all, drag_over_spec,
    drag_over_events, push_tagged, lemma_concat_ordered, lemma_single_phase, lemma_within_concat,
    lemma_one_phase_ordered, lemma_drag_over_phase,
};
use crate::drag::{
    ButtonInput, ButtonModel, ButtonState, next_model, click_events, drag_events, step_events,
    lemma_step_event_facts,
};

verus! {

/// The click and drag state of a pointer's three buttons.
pub struct PointerButtons {
    /// The primary button.
    pub primary: ButtonState,
    /// The secondary button.
    pub secondary: ButtonState,
    /// The middle button.
    pub middle: ButtonState,
}

impl View for PointerButtons {
    type V = Seq<ButtonModel>;

    open spec fn view(&self) -> Seq<ButtonModel> {
        seq![self.primary@, self.secondary@, self.middle@]
    }
}

/// The position of a button's state in a pointer's button states.
pub open spec fn button_index(b: PointerButton) -> int {
    match b {
        PointerButton::Primary => 0,
        PointerButton::Secondary => 1,
        PointerButton::Middle => 2,
    }
}

/// The button whose state stands at position `k`.
pub open spec fn button_at(k: int) -> PointerButton {
    if k == 0 {
        PointerButton::Primary
    } else if k == 1 {
        PointerButton::Secondary
    } else {
        PointerButton::Middle
    }
}

/// The button states after the first `n` edges, with the events of the
/// Down/Up phase (each edge's `Down` or `Up`, then its clicks) and, apart, the
/// drag and cancellation events those edges cause.
pub open spec fn edge_run(
    bs: Seq<ButtonModel>,
    edges: Seq<(PointerButton, bool)>,
    cur: Seq<Entity>,
    at: Option<Location>,
    n: int,
) -> (Seq<ButtonModel>, Seq<PointerEvent>, Seq<PointerEvent>)
    decreases n,
{
    if n <= 0 {
        (bs, Seq::empty(), Seq::empty())
    } else {
        let r = edge_run(bs, edges, cur, at, n - 1);
        let b = edges[n - 1].0;
        let down = edges[n - 1].1;
        let input = if down {
            ButtonInput::Press { at }
        } else {
            ButtonInput::Release
        };
        let k = if down {
            EventKind::Down(b)
        } else {
            EventKind::Up(b)
        };
        let m = r.0[button_index(b)];
        (
            r.0.update(button_index(b), next_model(m, input, cur)),
            r.1 + tagged_all(cur, k, Seq::empty()) + click_events(m, b, input, cur),
            r.2 + drag_events(m, b, input, cur),
        )
    }
}

/// The button states after feeding `input` to the first `k` buttons in turn,
/// with the events caused.
pub open spec fn buttons_run(bs: Seq<ButtonModel>, input: ButtonInput, cur: Seq<Entity>, k: int) -> (
    Seq<ButtonModel>,
    Seq<PointerEvent>,
)
    decreases k,
{
    if k <= 0 {
        (bs, Seq::empty())
    } else {
        let r = buttons_run(bs, input, cur, k - 1);
        let m = r.0[k - 1];
        (
            r.0.update(k - 1, next_model(m, input, cur)),
            r.1 + step_events(m, button_at(k - 1), input, cur),
        )
    }
}

/// The drop-target events of the first `k` buttons that are dragging.
pub open spec fn drag_over_all(
    bs: Seq<ButtonModel>,
    prev: Seq<Entity>,
    cur: Seq<Entity>,
    moved: bool,
    k: int,
) -> Seq<PointerEvent>
    decreases k,
{
    if k <= 0 {
        Seq::empty()
    } else {
        drag_over_all(bs, prev, cur, moved, k - 1) + match bs[k - 1] {
            ButtonModel::Dragging { drag_set, .. } => drag_over_spec(
                button_at(k - 1),
                drag_set,
                prev,
                cur,
                moved,
            ),
            _ => Seq::empty(),
        }
    }
}

/// The button states after the moves of a frame.
pub open spec fn after_moves(
    bs: Seq<ButtonModel>,
    cur: Seq<Entity>,
    location: Option<Location>,
    moved: bool,
) -> (Seq<ButtonModel>, Seq<PointerEvent>) {
    match location {
        Some(l) => if moved {
            buttons_run(bs, ButtonInput::Move { x: l.x, y: l.y }, cur, 3)
        } else {
            (bs, Seq::empty())
        },
        None => (bs, Seq::empty()),
    }
}

/// One pointer's frame: its new button states and its events. First `Out`,
/// `Over` and, if it moved, `Move`; then for each button edge in arrival order
/// its `Down` or `Up` to every hovered entity followed by that edge's clicks;
/// then `Scroll` if it scrolled. After these come the drag events: those of
/// the edges, those of the move (fed to every button, when the pointer has a
/// location), the drop-target events of every dragging button, and, if the
/// pointer was cancelled, what cancelling every button sends.
pub open spec fn frame_output(
    bs: Seq<ButtonModel>,
    prev: Seq<Entity>,
    cur: Seq<Entity>,
    location: Option<Location>,
    moved: bool,
    edges: Seq<(PointerButton, bool)>,
    scrolled: bool,
    cancelled: bool,
) -> (Seq<ButtonModel>, Seq<PointerEvent>) {
    let none = Seq::<Entity>::empty();
    let hover = tagged_all(prev, EventKind::Out, cur) + tagged_all(cur, EventKind::Over, prev) + (
    if moved {
        tagged_all(cur, EventKind::Move, none)
    } else {
        Seq::empty()
    });
    let er = edge_run(bs, edges, cur, location, edges.len() as int);
    let sc = if scrolled {
        tagged_all(cur, EventKind::Scroll, none)
    } else {
        Seq::empty()
    };
    let mv = after_moves(er.0, cur, location, moved);
    let dov = drag_over_all(mv.0, prev, cur, moved, 3);
    let cn = if cancelled {
        buttons_run(mv.0, ButtonInput::Cancel, cur, 3)
    } else {
        (mv.0, Seq::empty())
    };
    (cn.0, hover + er.1 + sc + er.2 + mv.1 + dov + cn.1)
}

fn append_events(out: &mut Vec<PointerEvent>, add: Vec<PointerEvent>)
    ensures
        final(out)@ == old(out)@ + add@,
{
    let ghost start = out@;
    let mut i: usize = 0;
    while i < add.len()
        invariant
            i <= add@.len(),
            out@ == start + add@.take(i as int),
        decreases add@.len() - i,
    {
        out.push(add[i]);
        i = i + 1;
        assert(out@ =~= start + add@.take(i as int));
    }
    assert(add@.take(add@.len() as int) =~= add@);
}

impl PointerButtons {
    /// Three buttons that are up.
    pub fn new() -> (r: Self)
        ensures
            r@ == seq![ButtonModel::Idle, ButtonModel::Idle, ButtonModel::Idle],
    {
        PointerButtons {
            primary: ButtonState::new(),
            secondary: ButtonState::new(),
            middle: ButtonState::new(),
        }
    }

    /// The state of button `b`.
    pub fn get(&self, b: PointerButton) -> (r: &ButtonState)
        ensures
            r@ == self@[button_index(b)],
    {
        match b {
            PointerButton::Primary => &self.primary,
            PointerButton::Secondary => &self.secondary,
            PointerButton::Middle => &self.middle,
        }
    }

    /// Feeds `input` to button `b`; returns its clicks and its other events.
    pub fn step(&mut self, b: PointerButton, input: ButtonInput, hovered: &Vec<Entity>) -> (r: (
        Vec<PointerEvent>,
        Vec<PointerEvent>,
    ))
        ensures
            final(self)@ == old(self)@.update(
                button_index(b),
                next_model(old(self)@[button_index(b)], input, hovered@),
            ),
            r.0@ == click_events(old(self)@[button_index(b)], b, input, hovered@),
            r.1@ == drag_events(old(self)@[button_index(b)], b, input, hovered@),
    {
        let r = match b {
            PointerButton::Primary => self.primary.step(b, input, hovered),
            PointerButton::Secondary => self.secondary.step(b, input, hovered),
            PointerButton::Middle => self.middle.step(b, input, hovered),
        };
        assert(self@ =~= old(self)@.update(
            button_index(b),
            next_model(old(self)@[button_index(b)], input, hovered@),
        ));
        r
    }

    fn step_all(&mut self, input: ButtonInput, hovered: &Vec<Entity>) -> (r: Vec<PointerEvent>)
        ensures
            final(self)@ == buttons_run(old(self)@, input, hovered@, 3).0,
            r@ == buttons_run(old(self)@, input, hovered@, 3).1,
    {
        let ghost s0 = self@;
        let mut out: Vec<PointerEvent> = Vec::new();
        let (c, d) = self.step(PointerButton::Primary, input, hovered);
        append_events(&mut out, c);
        append_events(&mut out, d);
        assert(buttons_run(s0, input, hovered@, 0) == (s0, Seq::<PointerEvent>::empty()));
        assert(out@ =~= buttons_run(s0, input, hovered@, 1).1);
        assert(self@ == buttons_run(s0, input, hovered@, 1).0);
        let (c, d) = self.step(PointerButton::Secondary, input, hovered);
        append_events(&mut out, c);
        append_events(&mut out, d);
        assert(out@ =~= buttons_run(s0, input, hovered@, 2).1);
        assert(self@ == buttons_run(s0, input, hovered@, 2).0);
        let (c, d) = self.step(PointerButton::Middle, input, hovered);
        append_events(&mut out, c);
        append_events(&mut out, d);
        assert(out@ =~= buttons_run(s0, input, hovered@, 3).1);
        out
    }
}

fn drag_over_one(
    buttons: &PointerButtons,
    b: PointerButton,
    prev: &Vec<Entity>,
    cur: &Vec<Entity>,
    moved: bool,
) -> (r: Vec<PointerEvent>)
    ensures
        r@ == match buttons@[button_index(b)] {
            ButtonModel::Dragging { drag_set, .. } => drag_over_spec(b, drag_set, prev@, cur@, moved),
            _ => Seq::empty(),
        },
{
    match buttons.get(b).drag_set() {
        Some(ds) => drag_over_events(b, ds, prev, cur, moved),
        None => Vec::new(),
    }
}

/// Builds one pointer's events for a frame and advances its button states;
/// see `frame_output` for the order. `location` is the pointer's location now,
/// `moved` whether it changed this frame, and `edges` the button edges of the
/// frame in arrival order (`true` for a press).
pub fn pointer_frame(
    prev: &Vec<Entity>,
    cur: &Vec<Entity>,
    location: Option<Location>,
    moved: bool,
    edges: &Vec<(PointerButton, bool)>,
    scrolled: bool,
    cancelled: bool,
    buttons: &mut PointerButtons,
) -> (r: Vec<PointerEvent>)
    ensures
        (final(buttons)@, r@) == frame_output(
            old(buttons)@,
            prev@,
            cur@,
            location,
            moved,
            edges@,
            scrolled,
            cancelled,
        ),
{
    let none: Vec<Entity> = Vec::new();
    let mut out: Vec<PointerEvent> = Vec::new();
    let mut later: Vec<PointerEvent> = Vec::new();
    push_tagged(&mut out, prev, EventKind::Out, cur, false);
    push_tagged(&mut out, cur, EventKind::Over, prev, false);
    if moved {
        push_tagged(&mut out, cur, EventKind::Move, &none, false);
    }
    let ghost hover = out@;
    let ghost bs0 = buttons@;
    let mut i: usize = 0;
    while i < edges.len()
        invariant
            i <= edges@.len(),
            none@ == Seq::<Entity>::empty(),
            buttons@ == edge_run(bs0, edges@, cur@, location, i as int).0,
            out@ == hover + edge_run(bs0, edges@, cur@, location, i as int).1,
            later@ == edge_run(bs0, edges@, cur@, location, i as int).2,
        decreases edges@.len() - i,
    {
        let (b, down) = edges[i];
        let (input, k) = if down {
            (ButtonInput::Press { at: location }, EventKind::Down(b))
        } else {
            (ButtonInput::Release, EventKind::Up(b))
        };
        push_tagged(&mut out, cur, k, &none, false);
        let (c, d) = buttons.step(b, input, cur);
        append_events(&mut out, c);
        append_events(&mut later, d);
        i = i + 1;
        assert(out@ =~= hover + edge_run(bs0, edges@, cur@, location, i as int).1);
        assert(later@ =~= edge_run(bs0, edges@, cur@, location, i as int).2);
    }
    if scrolled {
        push_tagged(&mut out, cur, EventKind::Scroll, &none, false);
    }
    append_events(&mut out, later);
    let ghost bs1 = buttons@;
    if moved {
        if let Some(l) = location {
            let e = buttons.step_all(ButtonInput::Move { x: l.x, y: l.y }, cur);
            append_events(&mut out, e);
        }
    }
    let ghost bs2 = buttons@;
    let ghost o2 = out@;
    assert(drag_over_all(bs2, prev@, cur@, moved, 0) =~= Seq::<PointerEvent>::empty());
    let e = drag_over_one(buttons, PointerButton::Primary, prev, cur, moved);
    append_events(&mut out, e);
    assert(out@ =~= o2 + drag_over_all(bs2, prev@, cur@, moved, 1));
    let e = drag_over_one(buttons, PointerButton::Secondary, prev, cur, moved);
    append_events(&mut out, e);
    assert(out@ =~= o2 + drag_over_all(bs2, prev@, cur@, moved, 2));
    let e = drag_over_one(buttons, PointerButton::Middle, prev, cur, moved);
    append_events(&mut out, e);
    assert(out@ =~= o2 + drag_over_all(bs2, prev@, cur@, moved, 3));
    if cancelled {
        let e = buttons.step_all(ButtonInput::Cancel, cur);
        append_events(&mut out, e);
    }
    proof {
        let f = frame_output(bs0, prev@, cur@, location, moved, edges@, scrolled, cancelled);
        assert(out@ =~= f.1);
    }
    out
}

proof fn lemma_step_phases(m: ButtonModel, b: PointerButton, input: ButtonInput, cur: Seq<Entity>)
    ensures
        phases_within(click_events(m, b, input, cur), 3, 3),
        phases_within(drag_events(m, b, input, cur), 5, 5),
        !(input is Release) ==> click_events(m, b, input, cur) == Seq::<PointerEvent>::empty(),
{
    lemma_step_event_facts(m, b, input, cur);
}

proof fn lemma_edge_run_phases(
    bs: Seq<ButtonModel>,
    edges: Seq<(PointerButton, bool)>,
    cur: Seq<Entity>,
    at: Option<Location>,
    n: int,
)
    requires
        bs.len() == 3,
        n <= edges.len(),
    ensures
        edge_run(bs, edges, cur, at, n).0.len() == 3,
        phases_within(edge_run(bs, edges, cur, at, n).1, 3, 3),
        phases_within(edge_run(bs, edges, cur, at, n).2, 5, 5),
    decreases n,
{
    if n > 0 {
        lemma_edge_run_phases(bs, edges, cur, at, n - 1);
        let r = edge_run(bs, edges, cur, at, n - 1);
        let b = edges[n - 1].0;
        let down = edges[n - 1].1;
        let input = if down {
            ButtonInput::Press { at }
        } else {
            ButtonInput::Release
        };
        let k = if down {
            EventKind::Down(b)
        } else {
            EventKind::Up(b)
        };
        let m = r.0[button_index(b)];
        lemma_single_phase(cur, k, Seq::empty());
        lemma_step_phases(m, b, input, cur);
        lemma_within_concat(r.1, tagged_all(cur, k, Seq::empty()), 3, 3);
        lemma_within_concat(r.1 + tagged_all(cur, k, Seq::empty()), click_events(m, b, input, cur), 3, 3);
        lemma_within_concat(r.2, drag_events(m, b, input, cur), 5, 5);
    }
}

proof fn lemma_buttons_run_phases(bs: Seq<ButtonModel>, input: ButtonInput, cur: Seq<Entity>, k: int)
    requires
        bs.len() == 3,
        k <= 3,
        !(input is Release),
    ensures
        buttons_run(bs, input, cur, k).0.len() == 3,
        phases_within(buttons_run(bs, input, cur, k).1, 5, 5),
    decreases k,
{
    if k > 0 {
        lemma_buttons_run_phases(bs, input, cur, k - 1);
        let r = buttons_run(bs, input, cur, k - 1);
        let m = r.0[k - 1];
        lemma_step_phases(m, button_at(k - 1), input, cur);
        assert(step_events(m, button_at(k - 1), input, cur) =~= drag_events(m, button_at(k - 1), input, cur));
        lemma_within_concat(r.1, drag_events(m, button_at(k - 1), input, cur), 5, 5);
    }
}

proof fn lemma_drag_over_all_phases(
    bs: Seq<ButtonModel>,
    prev: Seq<Entity>,
    cur: Seq<Entity>,
    moved: bool,
    k: int,
)
    requires
        k <= bs.len(),
    ensures
        phases_within(drag_over_all(bs, prev, cur, moved, k), 5, 5),
    decreases k,
{
    if k > 0 {
        lemma_drag_over_all_phases(bs, prev, cur, moved, k - 1);
        let d = match bs[k - 1] {
            ButtonModel::Dragging { drag_set, .. } => drag_over_spec(
                button_at(k - 1),
                drag_set,
                prev,
                cur,
                moved,
            ),
            _ => Seq::empty(),
        };
        if let ButtonModel::Dragging { drag_set, .. } = bs[k - 1] {
            lemma_drag_over_phase(button_at(k - 1), drag_set, prev, cur, moved);
        }
        lemma_within_concat(drag_over_all(bs, prev, cur, moved, k - 1), d, 5, 5);
    }
}

/// Within one pointer's frame every `Out` comes before every `Over`, those
/// before every `Move`, those before every `Down`, `Up` and `Click`, those
/// before every `Scroll`, and the drag, drop and cancellation events come last.
pub proof fn lemma_frame_output_ordered(
    bs: Seq<ButtonModel>,
    prev: Seq<Entity>,
    cur: Seq<Entity>,
    location: Option<Location>,
    moved: bool,
    edges: Seq<(PointerButton, bool)>,
    scrolled: bool,
    cancelled: bool,
)
    requires
        bs.len() == 3,
    ensures
        phase_ordered(frame_output(bs, prev, cur, location, moved, edges, scrolled, cancelled).1),
{
    let none = Seq::<Entity>::empty();
    let a = tagged_all(prev, EventKind::Out, cur);
    let b = tagged_all(cur, EventKind::Over, prev);
    let c = if moved {
        tagged_all(cur, EventKind::Move, none)
    } else {
        Seq::empty()
    };
    let er = edge_run(bs, edges, cur, location, edges.len() as int);
    let sc = if scrolled {
        tagged_all(cur, EventKind::Scroll, none)
    } else {
        Seq::empty()
    };
    let mv = after_moves(er.0, cur, location, moved);
    let dov = drag_over_all(mv.0, prev, cur, moved, 3);
    let cn = if cancelled {
        buttons_run(mv.0, ButtonInput::Cancel, cur, 3)
    } else {
        (mv.0, Seq::empty())
    };
    lemma_single_phase(prev, EventKind::Out, cur);
    lemma_single_phase(cur, EventKind::Over, prev);
    lemma_single_phase(cur, EventKind::Move, none);
    lemma_single_phase(cur, EventKind::Scroll, none);
    lemma_edge_run_phases(bs, edges, cur, location, edges.len() as int);
    if let Some(l) = location {
        if moved {
            lemma_buttons_run_phases(er.0, ButtonInput::Move { x: l.x, y: l.y }, cur, 3);
        }
    }
    assert(mv.0.len() == 3);
    lemma_drag_over_all_phases(mv.0, prev, cur, moved, 3);
    if cancelled {
        lemma_buttons_run_phases(mv.0, ButtonInput::Cancel, cur, 3);
    }
    lemma_within_concat(er.2, mv.1, 5, 5);
    lemma_within_concat(er.2 + mv.1, dov, 5, 5);
    lemma_within_concat(er.2 + mv.1 + dov, cn.1, 5, 5);
    let tail = er.2 + mv.1 + dov + cn.1;
    lemma_one_phase_ordered(er.1, 3);
    lemma_one_phase_ordered(tail, 5);
    lemma_concat_ordered(a, b, 0, 1, 1);
    lemma_concat_ordered(a + b, c, 0, 2, 2);
    lemma_concat_ordered(a + b + c, er.1, 0, 3, 3);
    lemma_concat_ordered(a + b + c + er.1, sc, 0, 4, 4);
    lemma_concat_ordered(a + b + c + er.1 + sc, tail, 0, 5, 5);
    assert(frame_output(bs, prev, cur, location, moved, edges, scrolled, cancelled).1 =~= a + b + c
        + er.1 + sc + tail);
}

} // verus!
