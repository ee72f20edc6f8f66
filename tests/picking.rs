use bevy_picking_core::backend::{HitAggregator, HitCandidate};
use bevy_picking_core::bubble::Hierarchy;
use bevy_picking_core::drag::{ButtonInput, ButtonState};
use bevy_picking_core::events::{
    drag_over_events, pointer_events, DragDelta, EventKind, PointerEvent,
};
use bevy_picking_core::focus::{resolve, PickableTable};
use bevy_picking_core::frame::{pointer_frame, PointerButtons};
use bevy_picking_core::interaction::{
    interaction_of, update_interactions, PickingInteraction, PointerHover,
};
use bevy_picking_core::pointer::{
    Location, PointerButton, PointerCoreBundle, PointerId, PointerPress, PointerRegistry,
};
use bevy_picking_core::{Pickable, PickingPluginsSettings};

fn hit(pointer: u64, entity: u64, depth: f32, order: u32) -> HitCandidate {
    HitCandidate { pointer: PointerId::Custom(pointer), entity, depth: depth.to_bits(), order }
}

fn entities(hits: &[HitCandidate]) -> Vec<u64> {
    hits.iter().map(|h| h.entity).collect()
}

fn press(x: i32, y: i32) -> ButtonInput {
    ButtonInput::Press { at: Some(Location { target: 0, x, y }) }
}

fn step(st: &mut ButtonState, b: PointerButton, input: ButtonInput, h: &Vec<u64>) -> Vec<PointerEvent> {
    let (mut clicks, rest) = st.step(b, input, h);
    clicks.extend(rest);
    clicks
}

fn drag(b: PointerButton, delta_x: i64, delta_y: i64, distance_x: i64, distance_y: i64) -> EventKind {
    EventKind::Drag(b, DragDelta { delta_x, delta_y, distance_x, distance_y })
}

fn ev(kind: EventKind, target: u64) -> PointerEvent {
    PointerEvent { kind, target }
}

#[test]
fn settings_default_enables_everything() {
    let s = PickingPluginsSettings::default();
    assert!(s.is_enabled && s.is_input_enabled && s.is_focus_enabled);
    assert!(PickingPluginsSettings::input_should_run(&s));
    assert!(PickingPluginsSettings::focus_should_run(&s));
}

#[test]
fn settings_master_switch_disables_both() {
    let s = PickingPluginsSettings { is_enabled: false, is_input_enabled: true, is_focus_enabled: true };
    assert!(!PickingPluginsSettings::input_should_run(&s));
    assert!(!PickingPluginsSettings::focus_should_run(&s));
    let t = PickingPluginsSettings { is_enabled: true, is_input_enabled: false, is_focus_enabled: true };
    assert!(!PickingPluginsSettings::input_should_run(&t));
    assert!(PickingPluginsSettings::focus_should_run(&t));
}

#[test]
fn pickable_default_and_ignore() {
    assert_eq!(Pickable::default(), Pickable { should_block_lower: true, is_hoverable: true });
    assert_eq!(Pickable::ignore(), Pickable { should_block_lower: false, is_hoverable: false });
}

#[test]
fn priority_dominates_depth() {
    let mut agg = HitAggregator::new();
    agg.submit(&vec![hit(0, 1, 1.0, 0)]);
    agg.submit(&vec![hit(0, 2, 0.1, 1)]);
    let merged = agg.collect(PointerId::Custom(0));
    assert_eq!(entities(&merged), vec![1, 2]);
    let table = PickableTable::new();
    assert_eq!(entities(&resolve(&merged, &table)), vec![1]);
}

#[test]
fn non_blocking_entity_lets_lower_hover() {
    let hits = vec![hit(0, 1, 1.0, 0), hit(0, 2, 2.0, 0)];
    let mut table = PickableTable::new();
    table.set(1, Pickable { should_block_lower: false, is_hoverable: true });
    assert_eq!(entities(&resolve(&hits, &table)), vec![1, 2]);
}

#[test]
fn merge_orders_by_depth_and_keeps_submission_order_on_ties() {
    let mut agg = HitAggregator::new();
    agg.submit(&vec![hit(0, 1, 3.0, 1), hit(7, 9, 0.0, 0), hit(0, 2, 1.0, 1)]);
    agg.submit(&vec![hit(0, 3, 1.0, 1), hit(0, 4, 5.0, 0)]);
    assert_eq!(entities(&agg.collect(PointerId::Custom(0))), vec![4, 2, 3, 1]);
    assert_eq!(entities(&agg.collect(PointerId::Custom(7))), vec![9]);
    assert!(agg.collect(PointerId::Custom(5)).is_empty());
}

#[test]
fn resolve_stops_at_first_blocking_entity() {
    let hits = vec![hit(0, 1, 1.0, 0), hit(0, 2, 2.0, 0), hit(0, 3, 3.0, 0), hit(0, 4, 4.0, 0)];
    let mut table = PickableTable::new();
    table.set(1, Pickable { should_block_lower: false, is_hoverable: true });
    table.set(2, Pickable { should_block_lower: true, is_hoverable: false });
    assert_eq!(entities(&resolve(&hits, &table)), vec![1]);
    assert!(resolve(&vec![], &table).is_empty());
}

#[test]
fn ignored_entity_is_transparent() {
    let hits = vec![hit(0, 1, 1.0, 0), hit(0, 2, 2.0, 0), hit(0, 3, 3.0, 0)];
    let mut table = PickableTable::new();
    table.set(1, Pickable::ignore());
    table.set(2, Pickable::ignore());
    assert_eq!(entities(&resolve(&hits, &table)), vec![3]);
    assert_eq!(table.get(1), Pickable::ignore());
    assert_eq!(table.get(3), Pickable::default());
}

#[test]
fn later_override_replaces_earlier() {
    let mut table = PickableTable::new();
    table.set(1, Pickable::ignore());
    table.set(1, Pickable::default());
    assert_eq!(table.get(1), Pickable::default());
}

#[test]
fn frame_events_in_fixed_order() {
    let prev = vec![1, 2];
    let cur = vec![2, 3];
    let r = pointer_events(&prev, &cur, true, &vec![(PointerButton::Primary, true)], true);
    assert_eq!(
        r,
        vec![
            ev(EventKind::Out, 1),
            ev(EventKind::Over, 3),
            ev(EventKind::Move, 2),
            ev(EventKind::Move, 3),
            ev(EventKind::Down(PointerButton::Primary), 2),
            ev(EventKind::Down(PointerButton::Primary), 3),
            ev(EventKind::Scroll, 2),
            ev(EventKind::Scroll, 3),
        ]
    );
}

#[test]
fn frame_events_without_input_only_diff() {
    let r = pointer_events(&vec![5], &vec![5], false, &vec![], false);
    assert!(r.is_empty());
    let r = pointer_events(&vec![], &vec![4], false, &vec![(PointerButton::Secondary, false)], false);
    assert_eq!(r, vec![ev(EventKind::Over, 4), ev(EventKind::Up(PointerButton::Secondary), 4)]);
}

#[test]
fn interaction_pressed_dominates_hovered() {
    let ps = vec![
        PointerHover { hovered: vec![1, 2], pressed: false },
        PointerHover { hovered: vec![2], pressed: true },
    ];
    assert_eq!(interaction_of(&ps, 2), PickingInteraction::Pressed);
    assert_eq!(interaction_of(&ps, 1), PickingInteraction::Hovered);
    assert_eq!(interaction_of(&ps, 3), PickingInteraction::Idle);
}

#[test]
fn update_visits_each_entity_once() {
    let ps = vec![
        PointerHover { hovered: vec![1, 2], pressed: true },
        PointerHover { hovered: vec![2, 3], pressed: false },
    ];
    let r = update_interactions(&vec![4, 1], &ps);
    assert_eq!(
        r,
        vec![
            (4, PickingInteraction::Idle),
            (1, PickingInteraction::Pressed),
            (2, PickingInteraction::Pressed),
            (3, PickingInteraction::Hovered),
        ]
    );
}

#[test]
fn press_move_release_drags_and_drops() {
    let b = PointerButton::Primary;
    let mut st = ButtonState::new();
    assert!(step(&mut st, b, press(0, 0), &vec![1]).is_empty());
    assert!(!st.is_dragging());
    let r = step(&mut st, b, ButtonInput::Move { x: 3, y: 4 }, &vec![1]);
    assert_eq!(r, vec![ev(EventKind::DragStart(b), 1)]);
    assert!(st.is_dragging());
    let r = step(&mut st, b, ButtonInput::Move { x: 5, y: 4 }, &vec![2]);
    assert_eq!(r, vec![ev(drag(b, 2, 0, 5, 4), 1)]);
    let r = step(&mut st, b, ButtonInput::Move { x: 6, y: 6 }, &vec![2]);
    assert_eq!(r, vec![ev(drag(b, 1, 2, 6, 6), 1)]);
    let r = step(&mut st, b, ButtonInput::Release, &vec![2]);
    assert_eq!(r, vec![ev(EventKind::DragEnd(b), 1), ev(EventKind::Drop(b), 2)]);
    assert!(!st.is_dragging());
    assert!(step(&mut st, b, ButtonInput::Release, &vec![2]).is_empty());
}

#[test]
fn drag_deltas_track_moves() {
    let b = PointerButton::Primary;
    let mut st = ButtonState::new();
    step(&mut st, b, press(10, 10), &vec![1]);
    step(&mut st, b, ButtonInput::Move { x: 13, y: 14 }, &vec![1]);
    step(&mut st, b, ButtonInput::Move { x: 12, y: 20 }, &vec![1]);
    match st {
        ButtonState::Dragging { origin_x, origin_y, x, y, delta_x, delta_y, .. } => {
            assert_eq!((origin_x, origin_y, x, y, delta_x, delta_y), (10, 10, 12, 20, -1, 6));
        }
        _ => panic!("expected a drag in progress"),
    }
}

#[test]
fn drop_on_dragged_entity_or_nothing() {
    let b = PointerButton::Primary;
    let mut st = ButtonState::new();
    step(&mut st, b, press(0, 0), &vec![1]);
    step(&mut st, b, ButtonInput::Move { x: 1, y: 0 }, &vec![1]);
    let r = step(&mut st, b, ButtonInput::Release, &vec![1]);
    assert_eq!(
        r,
        vec![ev(EventKind::Click(b), 1), ev(EventKind::DragEnd(b), 1), ev(EventKind::Drop(b), 1)]
    );
    step(&mut st, b, press(0, 0), &vec![1]);
    step(&mut st, b, ButtonInput::Move { x: 1, y: 0 }, &vec![1]);
    let r = step(&mut st, b, ButtonInput::Release, &vec![]);
    assert_eq!(r, vec![ev(EventKind::DragEnd(b), 1)]);
}

#[test]
fn click_only_on_pressed_and_still_hovered() {
    let b = PointerButton::Secondary;
    let mut st = ButtonState::new();
    step(&mut st, b, press(0, 0), &vec![1, 2]);
    let r = step(&mut st, b, ButtonInput::Release, &vec![2, 3]);
    assert_eq!(r, vec![ev(EventKind::Click(b), 2)]);
}

#[test]
fn cancel_suppresses_click_and_drop() {
    let b = PointerButton::Primary;
    let mut st = ButtonState::new();
    step(&mut st, b, press(0, 0), &vec![1]);
    let r = step(&mut st, b, ButtonInput::Cancel, &vec![1]);
    assert_eq!(r, vec![ev(EventKind::Cancel, 1)]);
    assert!(step(&mut st, b, ButtonInput::Release, &vec![1]).is_empty());
    step(&mut st, b, press(0, 0), &vec![1]);
    step(&mut st, b, ButtonInput::Move { x: 2, y: 2 }, &vec![1]);
    let r = step(&mut st, b, ButtonInput::Cancel, &vec![1]);
    assert_eq!(r, vec![ev(EventKind::DragEnd(b), 1), ev(EventKind::Cancel, 1)]);
    assert!(!st.is_dragging());
}

#[test]
fn second_press_does_not_interrupt_drag() {
    let b = PointerButton::Primary;
    let mut st = ButtonState::new();
    step(&mut st, b, press(0, 0), &vec![1]);
    step(&mut st, b, ButtonInput::Move { x: 2, y: 2 }, &vec![1]);
    assert!(step(&mut st, b, press(9, 9), &vec![2]).is_empty());
    assert!(st.is_dragging());
}

#[test]
fn bubbling_climbs_until_stopped_or_root() {
    let mut h = Hierarchy::new();
    h.set_parent(1, 2);
    h.set_parent(2, 3);
    h.set_parent(3, 4);
    assert_eq!(h.propagation_path(1, &vec![]), vec![1, 2, 3, 4]);
    assert_eq!(h.propagation_path(1, &vec![3]), vec![1, 2, 3]);
    assert_eq!(h.propagation_path(1, &vec![1]), vec![1]);
    assert_eq!(h.propagation_path(9, &vec![]), vec![9]);
    assert_eq!(h.parent(2), Some(3));
    assert_eq!(h.parent(4), None);
}

#[test]
fn bubbling_on_a_cycle_is_bounded() {
    let mut h = Hierarchy::new();
    h.set_parent(1, 2);
    h.set_parent(2, 1);
    assert_eq!(h.propagation_path(1, &vec![]), vec![1, 2, 1]);
}

#[test]
fn pointer_bundle_starts_empty() {
    let b = PointerCoreBundle::new(PointerId::Touch(3));
    assert_eq!(b.id, PointerId::Touch(3));
    assert_eq!(b.location.location, None);
    assert!(!b.click.is_any_pressed());
    assert!(b.interaction.sorted_entities.is_empty());
    let loc = Location { target: 1, x: 5, y: -2 };
    let b = b.with_location(loc);
    assert_eq!(b.location.location, Some(loc));
    assert_eq!(b.id, PointerId::Touch(3));
}

#[test]
fn pointer_press_per_button() {
    let p = PointerPress { primary: false, secondary: true, middle: false };
    assert!(p.is_pressed(PointerButton::Secondary));
    assert!(!p.is_pressed(PointerButton::Primary));
    assert!(p.is_any_pressed());
}

#[test]
fn drag_over_events_spare_the_dragged_entity() {
    let b = PointerButton::Primary;
    let r = drag_over_events(b, &vec![1], &vec![1, 2], &vec![1, 3], true);
    assert_eq!(
        r,
        vec![
            ev(EventKind::DragLeave(b), 2),
            ev(EventKind::DragEnter(b), 3),
            ev(EventKind::DragOver(b), 3),
        ]
    );
    assert!(drag_over_events(b, &vec![1], &vec![1], &vec![1], true).is_empty());
}

#[test]
fn registry_tracks_pointers_and_edges() {
    let mut reg = PointerRegistry::new();
    assert!(reg.register(PointerId::Custom(7)));
    assert!(!reg.register(PointerId::Custom(7)));
    reg.update_press(PointerId::Custom(8), PointerButton::Primary, true);
    assert_eq!(reg.find(PointerId::Custom(8)), None);
    reg.update_press(PointerId::Mouse, PointerButton::Primary, true);
    reg.update_press(PointerId::Mouse, PointerButton::Primary, false);
    assert_eq!(reg.find(PointerId::Mouse), Some(1));
    assert_eq!(
        reg.edges,
        vec![
            (PointerId::Mouse, PointerButton::Primary, true),
            (PointerId::Mouse, PointerButton::Primary, false),
        ]
    );
    assert!(!reg.pointers[1].press.primary);
    reg.update_location(PointerId::Custom(7), Some(Location { target: 0, x: 1, y: 2 }));
    reg.update_location(PointerId::Custom(7), Some(Location { target: 0, x: 3, y: 4 }));
    assert_eq!(reg.pointers[0].location.location, Some(Location { target: 0, x: 3, y: 4 }));
    reg.update_scroll(PointerId::Touch(1), 5);
    reg.update_scroll(PointerId::Touch(1), -2);
    assert_eq!(reg.pointers[2].scroll, 3);
    reg.end_frame();
    assert!(reg.edges.is_empty());
    assert_eq!(reg.pointers[2].scroll, 0);
    reg.deregister(PointerId::Mouse);
    assert_eq!(reg.find(PointerId::Mouse), None);
    assert_eq!(reg.find(PointerId::Touch(1)), Some(1));
}

#[test]
fn registry_scroll_saturates() {
    let mut reg = PointerRegistry::new();
    reg.register(PointerId::Mouse);
    reg.pointers[0].scroll = i64::MAX - 1;
    reg.update_scroll(PointerId::Mouse, 10);
    assert_eq!(reg.pointers[0].scroll, i64::MAX);
}

#[test]
fn release_over_several_entities_drops_once_on_nearest() {
    let b = PointerButton::Primary;
    let mut st = ButtonState::new();
    step(&mut st, b, press(0, 0), &vec![1]);
    step(&mut st, b, ButtonInput::Move { x: 1, y: 1 }, &vec![1]);
    let r = step(&mut st, b, ButtonInput::Release, &vec![2, 3]);
    assert_eq!(r, vec![ev(EventKind::DragEnd(b), 1), ev(EventKind::Drop(b), 2)]);
}

#[test]
fn press_without_location_starts_drag_at_first_move() {
    let b = PointerButton::Middle;
    let mut st = ButtonState::new();
    step(&mut st, b, ButtonInput::Press { at: None }, &vec![4]);
    step(&mut st, b, ButtonInput::Move { x: 7, y: 8 }, &vec![4]);
    let r = step(&mut st, b, ButtonInput::Move { x: 9, y: 5 }, &vec![4]);
    assert_eq!(r, vec![ev(drag(b, 2, -3, 2, -3), 4)]);
}

#[test]
fn pointer_frame_puts_click_before_scroll_and_drags_last() {
    let b = PointerButton::Primary;
    let mut buttons = PointerButtons::new();
    let loc = Some(Location { target: 0, x: 0, y: 0 });
    let r = pointer_frame(&vec![], &vec![1], loc, false, &vec![(b, true)], false, false, &mut buttons);
    assert_eq!(r, vec![ev(EventKind::Over, 1), ev(EventKind::Down(b), 1)]);
    let loc = Some(Location { target: 0, x: 2, y: 0 });
    let r = pointer_frame(&vec![1], &vec![1, 2], loc, true, &vec![], false, false, &mut buttons);
    assert_eq!(
        r,
        vec![
            ev(EventKind::Over, 2),
            ev(EventKind::Move, 1),
            ev(EventKind::Move, 2),
            ev(EventKind::DragStart(b), 1),
            ev(EventKind::DragEnter(b), 2),
            ev(EventKind::DragOver(b), 2),
        ]
    );
    let r = pointer_frame(&vec![1, 2], &vec![1, 2], loc, false, &vec![(b, false)], true, false, &mut buttons);
    assert_eq!(
        r,
        vec![
            ev(EventKind::Up(b), 1),
            ev(EventKind::Up(b), 2),
            ev(EventKind::Click(b), 1),
            ev(EventKind::Scroll, 1),
            ev(EventKind::Scroll, 2),
            ev(EventKind::DragEnd(b), 1),
            ev(EventKind::Drop(b), 1),
        ]
    );
    assert!(!buttons.get(b).is_dragging());
}

#[test]
fn pointer_frame_cancel_ends_drag_without_drop() {
    let b = PointerButton::Secondary;
    let mut buttons = PointerButtons::new();
    let loc = Some(Location { target: 0, x: 0, y: 0 });
    pointer_frame(&vec![], &vec![3], loc, false, &vec![(b, true)], false, false, &mut buttons);
    let loc = Some(Location { target: 0, x: 1, y: 0 });
    pointer_frame(&vec![3], &vec![3], loc, true, &vec![], false, false, &mut buttons);
    let r = pointer_frame(&vec![3], &vec![3], loc, false, &vec![], false, true, &mut buttons);
    assert_eq!(r, vec![ev(EventKind::DragEnd(b), 3), ev(EventKind::Cancel, 3)]);
    assert!(!buttons.get(b).is_dragging());
}
