//! Propagation of an event from its target up the entity hierarchy.
use vstd::prelude::*;
use crate::Entity;
use crate::events::contains_entity;

verus! {

/// The parent of `e` in a table of `(child, parent)` links: the latest link for `e`.
pub open spec fn parent_in(t: Seq<(Entity, Entity)>, e: Entity) -> Option<Entity>
    decreases t.len(),
{
    if t.len() == 0 {
        None
    } else if t.last().0 == e {
        Some(t.last().1)
    } else {
        parent_in(t.drop_last(), e)
    }
}

/// The entities an event visits from `e` on, at most `fuel` of them: each one
/// in turn, stopping after an entity whose listener stops propagation or that
/// has no parent.
pub open spec fn chain(t: Seq<(Entity, Entity)>, stoppers: Seq<Entity>, e: Entity, fuel: nat) -> Seq<
    Entity,
>
    decreases fuel,
{
    if fuel == 0 {
        Seq::empty()
    } else if stoppers.contains(e) {
        seq![e]
    } else {
        match parent_in(t, e) {
            None => seq![e],
            Some(p) => seq![e] + chain(t, stoppers, p, (fuel - 1) as nat),
        }
    }
}

/// Read-only parent links of the entity hierarchy.
pub struct Hierarchy {
    /// `(child, parent)` links; a later link for a child replaces an earlier one.
    pub links: Vec<(Entity, Entity)>,
}

impl View for Hierarchy {
    type V = Seq<(Entity, Entity)>;

    open spec fn view(&self) -> Seq<(Entity, Entity)> {
        self.links@
    }
}

impl Hierarchy {
    /// A hierarchy in which no entity has a parent.
    pub fn new() -> (r: Self)
        ensures
            r@ == Seq::<(Entity, Entity)>::empty(),
    {
        Hierarchy { links: Vec::new() }
    }

    /// Makes `parent` the parent of `child`.
    pub fn set_parent(&mut self, child: Entity, parent: Entity)
        ensures
            final(self)@ == old(self)@.push((child, parent)),
            parent_in(final(self)@, child) == Some(parent),
    {
        self.links.push((child, parent));
    }

    /// The parent of `e`, if it has one.
    pub fn parent(&self, e: Entity) -> (r: Option<Entity>)
        ensures
            r == parent_in(self@, e),
    {
        let mut i: usize = self.links.len();
        assert(self@.take(i as int) =~= self@);
        while i > 0
            invariant
                i <= self@.len(),
                parent_in(self@, e) == parent_in(self@.take(i as int), e),
            decreases i,
        {
            let (c, p) = self.links[i - 1];
            assert(self@.take(i as int).drop_last() =~= self@.take(i - 1));
            if c == e {
                return Some(p);
            }
            i = i - 1;
        }
        None
    }

    /// The entities an event targeted at `target` is delivered to, in order:
    /// the target, then its parent, grandparent and so on, up to an entity
    /// without a parent or one in `stoppers`, whose listener stops
    /// propagation. A path never holds more entities than there are links
    /// plus one, which bounds it on a hierarchy with a cycle.
    pub fn propagation_path(&self, target: Entity, stoppers: &Vec<Entity>) -> (r: Vec<Entity>)
        requires
            self@.len() < usize::MAX,
        ensures
            r@ == chain(self@, stoppers@, target, (self@.len() + 1) as nat),
    {
        let mut out: Vec<Entity> = Vec::new();
        let mut cur = target;
        let mut fuel: usize = self.links.len() + 1;
        while fuel > 0
            invariant
                out@ + chain(self@, stoppers@, cur, fuel as nat) == chain(
                    self@,
                    stoppers@,
                    target,
                    (self@.len() + 1) as nat,
                ),
            decreases fuel,
        {
            let ghost o = out@;
            out.push(cur);
            assert(out@ =~= o + seq![cur]);
            if contains_entity(stoppers, cur) {
                return out;
            }
            match self.parent(cur) {
                None => {
                    return out;
                },
                Some(p) => {
                    assert(out@ + chain(self@, stoppers@, p, (fuel - 1) as nat) =~= o + (seq![cur]
                        + chain(self@, stoppers@, p, (fuel - 1) as nat)));
                    cur = p;
                },
            }
            fuel = fuel - 1;
        }
        assert(out@ =~= out@ + chain(self@, stoppers@, cur, 0));
        out
    }
}

} // verus!
