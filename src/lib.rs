//! Core picking logic: settings, per-entity pickability, focus resolution,
//! interaction state, pointer events, drag tracking and event bubbling.
use vstd::prelude::*;

pub mod backend;
pub mod focus;
pub mod pointer;
pub mod events;
pub mod drag;
pub mod interaction;
pub mod bubble;
pub mod frame;

verus! {

/// Used to globally toggle picking features at runtime.
#[derive(Clone, Copy, Debug, PartialEq, Eq, Structural)]
pub struct PickingPluginsSettings {
    /// Enables and disables all picking features.
    pub is_enabled: bool,
    /// Enables and disables input collection.
    pub is_input_enabled: bool,
    /// Enables and disables updating interaction states of entities.
    pub is_focus_enabled: bool,
}

impl PickingPluginsSettings {
    /// Whether or not input collection systems should be running.
    pub fn input_should_run(state: &Self) -> (r: bool)
        ensures
            r == (state.is_input_enabled && state.is_enabled),
    {
        state.is_input_enabled && state.is_enabled
    }

    /// Whether or not systems updating entities' interaction state should be running.
    pub fn focus_should_run(state: &Self) -> (r: bool)
        ensures
            r == (state.is_focus_enabled && state.is_enabled),
    {
        state.is_focus_enabled && state.is_enabled
    }
}

impl Default for PickingPluginsSettings {
    fn default() -> (r: Self)
        ensures
            r.is_enabled && r.is_input_enabled && r.is_focus_enabled,
    {
        PickingPluginsSettings { is_enabled: true, is_input_enabled: true, is_focus_enabled: true }
    }
}

/// An entity identifier, as handed out by the host's entity store.
pub type Entity = u64;

/// An optional per-entity override of default picking behavior.
///
/// `should_block_lower` stops hover-set construction after this entity;
/// `is_hoverable` decides whether the entity itself enters the hover set.
#[derive(Clone, Copy, Debug, PartialEq, Eq, Structural)]
pub struct Pickable {
    /// Should this entity block entities below it from being picked?
    pub should_block_lower: bool,
    /// Should this entity be added to the hover set and thus emit events when targeted?
    pub is_hoverable: bool,
}

/// The pickability of an entity that carries no override: blocking and hoverable.
pub open spec fn default_pickable() -> Pickable {
    Pickable { should_block_lower: true, is_hoverable: true }
}

/// The pickability that makes an entity invisible to picking.
pub open spec fn ignore_pickable() -> Pickable {
    Pickable { should_block_lower: false, is_hoverable: false }
}

impl Pickable {
    /// This entity will not block entities beneath it, nor will it emit events.
    pub fn ignore() -> (r: Self)
        ensures
            r == ignore_pickable(),
    {
        Pickable { should_block_lower: false, is_hoverable: false }
    }
}

impl Default for Pickable {
    fn default() -> (r: Self)
        ensures
            r == default_pickable(),
    {
        Pickable { should_block_lower: true, is_hoverable: true }
    }
}

/// Groups the stages of the picking process under shared labels.
#[derive(Clone, Copy, Debug, PartialEq, Eq, Hash, Structural)]
pub enum PickSet {
    /// Produces pointer input events.
    Input,
    /// Runs after input events are generated but before commands are flushed.
    PostInput,
    /// Receives and processes pointer input events.
    ProcessInput,
    /// Reads inputs and produces pointer hits.
    Backend,
    /// Reads pointer hits, and updates focus, selection, and highlighting states.
    Focus,
    /// Runs after all the focus systems are done, before event listeners are triggered.
    PostFocus,
    /// Runs after all other picking sets.
    Last,
}

} // verus!
