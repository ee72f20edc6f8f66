//! Pointer identities and the per-pointer state the picking stages read.
use vstd::prelude::*;
use crate::backend::HitCandidate;

verus! {

/// Identifies a unique pointer entity.
#[derive(Clone, Copy, Debug, PartialEq, Eq, Hash, Structural)]
pub enum PointerId {
    /// The mouse pointer.
    Mouse,
    /// A touch input, with its touch id.
    Touch(u64),
    /// A custom, uniquely identified pointer.
    Custom(u64),
}

/// The buttons of a pointer.
#[derive(Clone, Copy, Debug, PartialEq, Eq, Hash, Structural)]
pub enum PointerButton {
    /// The primary button.
    Primary,
    /// The secondary button.
    Secondary,
    /// The middle button.
    Middle,
}

/// A pointer position on a render target, in whole logical pixels.
#[derive(Clone, Copy, Debug, PartialEq, Eq, Structural)]
pub struct Location {
    /// The render target the position is on.
    pub target: u64,
    /// Horizontal position.
    pub x: i32,
    /// Vertical position.
    pub y: i32,
}

/// Tracks a pointer's location; `None` while the pointer is off every surface.
#[derive(Clone, Copy, Debug, PartialEq, Eq, Structural)]
pub struct PointerLocation {
    /// The pointer's current location, if any.
    pub location: Option<Location>,
}

/// Tracks which buttons of a pointer are held.
#[derive(Clone, Copy, Debug, PartialEq, Eq, Structural)]
pub struct PointerPress {
    /// Whether the primary button is held.
    pub primary: bool,
    /// Whether the secondary button is held.
    pub secondary: bool,
    /// Whether the middle button is held.
    pub middle: bool,
}

/// Whether `button` is held in `p`.
pub open spec fn is_held(p: PointerPress, button: PointerButton) -> bool {
    match button {
        PointerButton::Primary => p.primary,
        PointerButton::Secondary => p.secondary,
        PointerButton::Middle => p.middle,
    }
}

impl PointerPress {
    /// Whether `button` is held.
    pub fn is_pressed(&self, button: PointerButton) -> (r: bool)
        ensures
            r == is_held(*self, button),
    {
        match button {
            PointerButton::Primary => self.primary,
            PointerButton::Secondary => self.secondary,
            PointerButton::Middle => self.middle,
        }
    }

    /// Whether any button is held.
    pub fn is_any_pressed(&self) -> (r: bool)
        ensures
            r == (self.primary || self.secondary || self.middle),
    {
        self.primary || self.secondary || self.middle
    }
}

/// The hits a pointer currently hovers, nearest first.
pub struct PointerInteraction {
    /// The hovered hits, nearest first.
    pub sorted_entities: Vec<HitCandidate>,
}

/// The components that make up a pointer.
pub struct PointerCoreBundle {
    /// The pointer's unique id.
    pub id: PointerId,
    /// Tracks the pointer's location.
    pub location: PointerLocation,
    /// Tracks the pointer's button press state.
    pub click: PointerPress,
    /// The interaction state of any hovered entities.
    pub interaction: PointerInteraction,
}

impl PointerCoreBundle {
    /// Create a new pointer with the provided id: no location, no button held,
    /// nothing hovered.
    pub fn new(id: PointerId) -> (r: Self)
        ensures
            r.id == id,
            r.location.location.is_none(),
            !r.click.primary && !r.click.secondary && !r.click.middle,
            r.interaction.sorted_entities@.len() == 0,
    {
        PointerCoreBundle {
            id,
            location: PointerLocation { location: None },
            click: PointerPress { primary: false, secondary: false, middle: false },
            interaction: PointerInteraction { sorted_entities: Vec::new() },
        }
    }

    /// Sets the location of the pointer bundle.
    pub fn with_location(self, location: Location) -> (r: Self)
        ensures
            r.id == self.id,
            r.location.location == Some(location),
            r.click == self.click,
            r.interaction.sorted_entities@ == self.interaction.sorted_entities@,
    {
        let mut b = self;
        b.location.location = Some(location);
        b
    }
}

/// One registered pointer's state in the current frame.
#[derive(Clone, Copy, Debug, PartialEq, Eq, Structural)]
pub struct PointerRecord {
    /// The pointer's id.
    pub id: PointerId,
    /// Its latest location.
    pub location: PointerLocation,
    /// Its held buttons.
    pub press: PointerPress,
    /// The vertical scroll accumulated this frame, saturating at the bounds of `i64`.
    pub scroll: i64,
}

/// The record of a pointer that has just been registered.
pub open spec fn fresh_record(id: PointerId) -> PointerRecord {
    PointerRecord {
        id,
        location: PointerLocation { location: None },
        press: PointerPress { primary: false, secondary: false, middle: false },
        scroll: 0,
    }
}

/// The index of the last record of `id` among the first `n` of `s`, or -1.
pub open spec fn find_in(s: Seq<PointerRecord>, id: PointerId, n: int) -> int
    decreases n,
{
    if n <= 0 {
        -1
    } else if s[n - 1].id == id {
        n - 1
    } else {
        find_in(s, id, n - 1)
    }
}

/// The index of the record of `id` in `s`, or -1.
pub open spec fn index_of(s: Seq<PointerRecord>, id: PointerId) -> int {
    find_in(s, id, s.len() as int)
}

/// The records after input for `id` arrives: a mouse or touch pointer seen for
/// the first time is registered; a custom pointer must be registered explicitly.
pub open spec fn on_input(s: Seq<PointerRecord>, id: PointerId) -> Seq<PointerRecord> {
    if index_of(s, id) >= 0 || id is Custom {
        s
    } else {
        s.push(fresh_record(id))
    }
}

/// `p` with `button` held or released.
pub open spec fn with_button(p: PointerPress, button: PointerButton, down: bool) -> PointerPress {
    match button {
        PointerButton::Primary => PointerPress { primary: down, ..p },
        PointerButton::Secondary => PointerPress { secondary: down, ..p },
        PointerButton::Middle => PointerPress { middle: down, ..p },
    }
}

/// `a + b`, clamped to the range of `i64`.
pub open spec fn clamped_sum(a: i64, b: i32) -> i64 {
    if a + b > i64::MAX {
        i64::MAX
    } else if a + b < i64::MIN {
        i64::MIN
    } else {
        (a + b) as i64
    }
}

/// Tracks the registered pointers, their state, and the button edges of the frame.
pub struct PointerRegistry {
    /// The registered pointers, one record each.
    pub pointers: Vec<PointerRecord>,
    /// Every button edge of the frame, in arrival order: `true` for a press.
    pub edges: Vec<(PointerId, PointerButton, bool)>,
}

impl PointerRegistry {
    /// Whether no pointer id has two records.
    pub open spec fn well_formed(&self) -> bool {
        forall|i: int, j: int|
            0 <= i < j < self.pointers@.len() ==> (#[trigger] self.pointers@[i]).id != (
            #[trigger] self.pointers@[j]).id
    }

    /// A registry with no pointer.
    pub fn new() -> (r: Self)
        ensures
            r.well_formed(),
            r.pointers@.len() == 0,
            r.edges@.len() == 0,
    {
        PointerRegistry { pointers: Vec::new(), edges: Vec::new() }
    }

    /// The index of the record of `id`, if it is registered.
    pub fn find(&self, id: PointerId) -> (r: Option<usize>)
        ensures
            match r {
                Some(i) => i as int == index_of(self.pointers@, id),
                None => index_of(self.pointers@, id) == -1,
            },
    {
        let mut i: usize = self.pointers.len();
        while i > 0
            invariant
                i <= self.pointers@.len(),
                index_of(self.pointers@, id) == find_in(self.pointers@, id, i as int),
            decreases i,
        {
            if self.pointers[i - 1].id == id {
                return Some(i - 1);
            }
            i = i - 1;
        }
        None
    }

    /// Registers `id`; returns whether it was not registered before.
    pub fn register(&mut self, id: PointerId) -> (r: bool)
        requires
            old(self).well_formed(),
        ensures
            final(self).well_formed(),
            r == (index_of(old(self).pointers@, id) == -1),
            final(self).pointers@ == (if r {
                old(self).pointers@.push(fresh_record(id))
            } else {
                old(self).pointers@
            }),
            final(self).edges@ == old(self).edges@,
    {
        match self.find(id) {
            Some(_) => false,
            None => {
                proof {
                    lemma_absent(self.pointers@, id, self.pointers@.len() as int);
                }
                self.pointers.push(
                    PointerRecord {
                        id,
                        location: PointerLocation { location: None },
                        press: PointerPress { primary: false, secondary: false, middle: false },
                        scroll: 0,
                    },
                );
                true
            },
        }
    }

    /// Removes the record of `id`, if there is one.
    pub fn deregister(&mut self, id: PointerId)
        requires
            old(self).well_formed(),
        ensures
            final(self).well_formed(),
            final(self).pointers@ == (if index_of(old(self).pointers@, id) >= 0 {
                old(self).pointers@.remove(index_of(old(self).pointers@, id))
            } else {
                old(self).pointers@
            }),
            final(self).edges@ == old(self).edges@,
    {
        if let Some(i) = self.find(id) {
            proof {
                lemma_found(self.pointers@, id, self.pointers@.len() as int);
            }
            self.pointers.remove(i);
            assert forall|a: int, b: int|
                0 <= a < b < self.pointers@.len() implies (#[trigger] self.pointers@[a]).id != (
                #[trigger] self.pointers@[b]).id by {
                let a0 = if a < i { a } else { a + 1 };
                let b0 = if b < i { b } else { b + 1 };
                assert(old(self).pointers@[a0] == self.pointers@[a]);
                assert(old(self).pointers@[b0] == self.pointers@[b]);
            }
        }
    }

    fn slot_for_input(&mut self, id: PointerId) -> (r: Option<usize>)
        requires
            old(self).well_formed(),
        ensures
            final(self).well_formed(),
            final(self).pointers@ == on_input(old(self).pointers@, id),
            final(self).edges@ == old(self).edges@,
            match r {
                Some(i) => i as int == index_of(final(self).pointers@, id)
                    && i < final(self).pointers@.len(),
                None => index_of(final(self).pointers@, id) == -1,
            },
    {
        match self.find(id) {
            Some(i) => {
                proof {
                    lemma_found(self.pointers@, id, self.pointers@.len() as int);
                }
                Some(i)
            },
            None => {
                if let PointerId::Custom(_) = id {
                    None
                } else {
                    self.register(id);
                    Some(self.pointers.len() - 1)
                }
            },
        }
    }

    /// Moves `id` to `location`; only the latest location of a frame is kept.
    pub fn update_location(&mut self, id: PointerId, location: Option<Location>)
        requires
            old(self).well_formed(),
        ensures
            final(self).well_formed(),
            final(self).edges@ == old(self).edges@,
            ({
                let t = on_input(old(self).pointers@, id);
                let i = index_of(t, id);
                final(self).pointers@ == (if i >= 0 {
                    t.update(i, PointerRecord { location: PointerLocation { location }, ..t[i] })
                } else {
                    t
                })
            }),
    {
        if let Some(i) = self.slot_for_input(id) {
            let mut r = self.pointers[i];
            r.location = PointerLocation { location };
            self.pointers.set(i, r);
            proof {
                assert forall|a: int, b: int|
                    0 <= a < b < self.pointers@.len() implies (#[trigger] self.pointers@[a]).id != (
                    #[trigger] self.pointers@[b]).id by {
                    assert(self.pointers@[a].id == on_input(old(self).pointers@, id)[a].id);
                    assert(self.pointers@[b].id == on_input(old(self).pointers@, id)[b].id);
                }
            }
        }
    }

    /// Records that `button` of `id` went down (`down`) or up. Every edge is
    /// kept, also when another one for the same button follows in the frame.
    pub fn update_press(&mut self, id: PointerId, button: PointerButton, down: bool)
        requires
            old(self).well_formed(),
        ensures
            final(self).well_formed(),
            ({
                let t = on_input(old(self).pointers@, id);
                let i = index_of(t, id);
                &&& final(self).pointers@ == (if i >= 0 {
                    t.update(i, PointerRecord { press: with_button(t[i].press, button, down), ..t[i] })
                } else {
                    t
                })
                &&& final(self).edges@ == (if i >= 0 {
                    old(self).edges@.push((id, button, down))
                } else {
                    old(self).edges@
                })
            }),
    {
        if let Some(i) = self.slot_for_input(id) {
            let mut r = self.pointers[i];
            match button {
                PointerButton::Primary => r.press.primary = down,
                PointerButton::Secondary => r.press.secondary = down,
                PointerButton::Middle => r.press.middle = down,
            }
            self.pointers.set(i, r);
            self.edges.push((id, button, down));
            proof {
                assert forall|a: int, b: int|
                    0 <= a < b < self.pointers@.len() implies (#[trigger] self.pointers@[a]).id != (
                    #[trigger] self.pointers@[b]).id by {
                    assert(self.pointers@[a].id == on_input(old(self).pointers@, id)[a].id);
                    assert(self.pointers@[b].id == on_input(old(self).pointers@, id)[b].id);
                }
            }
        }
    }

    /// Adds `delta` to the scroll `id` accumulated this frame.
    pub fn update_scroll(&mut self, id: PointerId, delta: i32)
        requires
            old(self).well_formed(),
        ensures
            final(self).well_formed(),
            final(self).edges@ == old(self).edges@,
            ({
                let t = on_input(old(self).pointers@, id);
                let i = index_of(t, id);
                final(self).pointers@ == (if i >= 0 {
                    t.update(i, PointerRecord { scroll: clamped_sum(t[i].scroll, delta), ..t[i] })
                } else {
                    t
                })
            }),
    {
        if let Some(i) = self.slot_for_input(id) {
            let mut r = self.pointers[i];
            let d = delta as i64;
            r.scroll = if d >= 0 && r.scroll > i64::MAX - d {
                i64::MAX
            } else if d < 0 && r.scroll < i64::MIN - d {
                i64::MIN
            } else {
                r.scroll + d
            };
            self.pointers.set(i, r);
            proof {
                assert forall|a: int, b: int|
                    0 <= a < b < self.pointers@.len() implies (#[trigger] self.pointers@[a]).id != (
                    #[trigger] self.pointers@[b]).id by {
                    assert(self.pointers@[a].id == on_input(old(self).pointers@, id)[a].id);
                    assert(self.pointers@[b].id == on_input(old(self).pointers@, id)[b].id);
                }
            }
        }
    }

    /// Ends the frame: forgets its button edges and accumulated scroll.
    pub fn end_frame(&mut self)
        requires
            old(self).well_formed(),
        ensures
            final(self).well_formed(),
            final(self).edges@.len() == 0,
            final(self).pointers@.len() == old(self).pointers@.len(),
            forall|i: int|
                0 <= i < final(self).pointers@.len() ==> #[trigger] final(self).pointers@[i] == (
                PointerRecord { scroll: 0, ..old(self).pointers@[i] }),
    {
        self.edges = Vec::new();
        let mut k: usize = 0;
        while k < self.pointers.len()
            invariant
                k <= self.pointers@.len(),
                self.pointers@.len() == old(self).pointers@.len(),
                self.edges@.len() == 0,
                forall|i: int|
                    0 <= i < k ==> #[trigger] self.pointers@[i] == (PointerRecord {
                        scroll: 0,
                        ..old(self).pointers@[i]
                    }),
                forall|i: int|
                    k <= i < self.pointers@.len() ==> #[trigger] self.pointers@[i]
                        == old(self).pointers@[i],
            decreases self.pointers@.len() - k,
        {
            let mut r = self.pointers[k];
            r.scroll = 0;
            self.pointers.set(k, r);
            k = k + 1;
        }
        assert forall|a: int, b: int|
            0 <= a < b < self.pointers@.len() implies (#[trigger] self.pointers@[a]).id != (
            #[trigger] self.pointers@[b]).id by {
            assert(self.pointers@[a].id == old(self).pointers@[a].id);
            assert(self.pointers@[b].id == old(self).pointers@[b].id);
        }
    }
}

proof fn lemma_absent(s: Seq<PointerRecord>, id: PointerId, n: int)
    requires
        0 <= n <= s.len(),
        find_in(s, id, n) == -1,
    ensures
        forall|i: int| 0 <= i < n ==> (#[trigger] s[i]).id != id,
    decreases n,
{
    if n > 0 {
        lemma_absent(s, id, n - 1);
    }
}

proof fn lemma_found(s: Seq<PointerRecord>, id: PointerId, n: int)
    requires
        0 <= n <= s.len(),
    ensures
        -1 <= find_in(s, id, n) < n,
        find_in(s, id, n) >= 0 ==> s[find_in(s, id, n)].id == id,
        find_in(s, id, n) == -1 ==> forall|i: int| 0 <= i < n ==> (#[trigger] s[i]).id != id,
    decreases n,
{
    if n > 0 {
        lemma_found(s, id, n - 1);
    }
}

} // verus!
