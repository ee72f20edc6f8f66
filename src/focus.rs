//! Focus resolution: from a pointer's ranked hits to its hover set.
use vstd::prelude::*;
use crate::{Entity, Pickable, default_pickable, ignore_pickable};
use crate::backend::HitCandidate;

verus! {

/// The pickability of `e` in a table of overrides: the latest entry for `e`,
/// or the default where there is none.
pub open spec fn pickable_in(t: Seq<(Entity, Pickable)>, e: Entity) -> Pickable
    decreases t.len(),
{
    if t.len() == 0 {
        default_pickable()
    } else if t.last().0 == e {
        t.last().1
    } else {
        pickable_in(t.drop_last(), e)
    }
}

/// Sparse per-entity pickability overrides.
pub struct PickableTable {
    /// The overrides in the order they were set; a later one replaces an earlier one.
    pub entries: Vec<(Entity, Pickable)>,
}

impl View for PickableTable {
    type V = Seq<(Entity, Pickable)>;

    open spec fn view(&self) -> Seq<(Entity, Pickable)> {
        self.entries@
    }
}

impl PickableTable {
    /// A table with no overrides: every entity has the default pickability.
    pub fn new() -> (r: Self)
        ensures
            r@ == Seq::<(Entity, Pickable)>::empty(),
    {
        PickableTable { entries: Vec::new() }
    }

    /// Overrides the pickability of `e`.
    pub fn set(&mut self, e: Entity, p: Pickable)
        ensures
            final(self)@ == old(self)@.push((e, p)),
            pickable_in(final(self)@, e) == p,
    {
        self.entries.push((e, p));
    }

    /// The pickability of `e`.
    pub fn get(&self, e: Entity) -> (r: Pickable)
        ensures
            r == pickable_in(self@, e),
    {
        let mut i: usize = self.entries.len();
        assert(self@.take(i as int) =~= self@);
        while i > 0
            invariant
                i <= self@.len(),
                pickable_in(self@, e) == pickable_in(self@.take(i as int), e),
            decreases i,
        {
            let (k, p) = self.entries[i - 1];
            assert(self@.take(i as int).drop_last() =~= self@.take(i - 1));
            if k == e {
                return p;
            }
            i = i - 1;
        }
        Pickable { should_block_lower: true, is_hoverable: true }
    }
}

/// Whether the hit `h` stops hover-set construction.
pub open spec fn blocks(t: Seq<(Entity, Pickable)>, h: HitCandidate) -> bool {
    pickable_in(t, h.entity).should_block_lower
}

/// Whether the hit `h` may enter the hover set.
pub open spec fn hoverable(t: Seq<(Entity, Pickable)>, h: HitCandidate) -> bool {
    pickable_in(t, h.entity).is_hoverable
}

/// The end of the ranked prefix that is considered, looking from index `i`:
/// just past the first blocking hit at or after `i`, else the end of `s`.
pub open spec fn stop_index(s: Seq<HitCandidate>, t: Seq<(Entity, Pickable)>, i: int) -> int
    decreases s.len() - i,
{
    if i >= s.len() {
        s.len() as int
    } else if blocks(t, s[i]) {
        i + 1
    } else {
        stop_index(s, t, i + 1)
    }
}

/// The hoverable hits among the first `n` of `s`, in order.
pub open spec fn hoverable_prefix(s: Seq<HitCandidate>, t: Seq<(Entity, Pickable)>, n: int) -> Seq<
    HitCandidate,
>
    decreases n,
{
    if n <= 0 {
        Seq::empty()
    } else {
        let p = hoverable_prefix(s, t, n - 1);
        if hoverable(t, s[n - 1]) {
            p.push(s[n - 1])
        } else {
            p
        }
    }
}

/// The hover set of ranked hits `s`: the hoverable hits up to and including the
/// first blocking one.
pub open spec fn hover_set(s: Seq<HitCandidate>, t: Seq<(Entity, Pickable)>) -> Seq<HitCandidate> {
    hoverable_prefix(s, t, stop_index(s, t, 0))
}

/// Walks the ranked hits of one pointer and returns its hover set, nearest first.
pub fn resolve(hits: &Vec<HitCandidate>, table: &PickableTable) -> (r: Vec<HitCandidate>)
    ensures
        r@ == hover_set(hits@, table@),
{
    let mut out: Vec<HitCandidate> = Vec::new();
    let mut i: usize = 0;
    while i < hits.len()
        invariant
            i <= hits@.len(),
            stop_index(hits@, table@, 0) == stop_index(hits@, table@, i as int),
            out@ == hoverable_prefix(hits@, table@, i as int),
        decreases hits@.len() - i,
    {
        let h = hits[i];
        let p = table.get(h.entity);
        if p.is_hoverable {
            out.push(h);
        }
        if p.should_block_lower {
            return out;
        }
        i = i + 1;
    }
    out
}

proof fn lemma_stop_index(s: Seq<HitCandidate>, t: Seq<(Entity, Pickable)>, i: int)
    requires
        0 <= i <= s.len(),
    ensures
        i <= stop_index(s, t, i) <= s.len(),
        forall|j: int| i <= j < stop_index(s, t, i) - 1 ==> !blocks(t, #[trigger] s[j]),
        stop_index(s, t, i) < s.len() ==> stop_index(s, t, i) > i && blocks(
            t,
            s[stop_index(s, t, i) - 1],
        ),
        stop_index(s, t, i) == s.len() && s.len() > i ==> forall|j: int|
            i <= j < s.len() - 1 ==> !blocks(t, #[trigger] s[j]),
    decreases s.len() - i,
{
    if i < s.len() && !blocks(t, s[i]) {
        lemma_stop_index(s, t, i + 1);
    }
}

proof fn lemma_prefix_hoverable(s: Seq<HitCandidate>, t: Seq<(Entity, Pickable)>, n: int)
    requires
        0 <= n <= s.len(),
    ensures
        forall|i: int|
            0 <= i < hoverable_prefix(s, t, n).len() ==> hoverable(
                t,
                #[trigger] hoverable_prefix(s, t, n)[i],
            ) && s.take(n).contains(hoverable_prefix(s, t, n)[i]),
    decreases n,
{
    if n > 0 {
        lemma_prefix_hoverable(s, t, n - 1);
        let p = hoverable_prefix(s, t, n - 1);
        assert forall|i: int| 0 <= i < p.len() implies s.take(n).contains(p[i]) by {
            let j = choose|j: int| 0 <= j < n - 1 && #[trigger] s.take(n - 1)[j] == p[i];
            assert(s.take(n)[j] == p[i]);
        }
        assert(s.take(n)[n - 1] == s[n - 1]);
    }
}

/// The hover set is exactly the hoverable hits of the ranked prefix that ends
/// with the first blocking hit: every hit before that one is non-blocking,
/// every member is hoverable and comes from that prefix, and a hoverable hit
/// of the prefix is a member.
pub proof fn lemma_hover_set_is_blocked_prefix(s: Seq<HitCandidate>, t: Seq<(Entity, Pickable)>)
    ensures
        0 <= stop_index(s, t, 0) <= s.len(),
        forall|j: int| 0 <= j < stop_index(s, t, 0) - 1 ==> !blocks(t, #[trigger] s[j]),
        stop_index(s, t, 0) < s.len() ==> blocks(t, s[stop_index(s, t, 0) - 1]),
        stop_index(s, t, 0) == s.len() ==> forall|j: int|
            0 <= j < s.len() - 1 ==> !blocks(t, #[trigger] s[j]),
        hover_set(s, t) == hoverable_prefix(s, t, stop_index(s, t, 0)),
        forall|i: int|
            0 <= i < hover_set(s, t).len() ==> hoverable(t, #[trigger] hover_set(s, t)[i])
                && s.take(stop_index(s, t, 0)).contains(hover_set(s, t)[i]),
        forall|j: int|
            0 <= j < stop_index(s, t, 0) && hoverable(t, s[j]) ==> hover_set(s, t).contains(
                #[trigger] s[j],
            ),
{
    lemma_stop_index(s, t, 0);
    lemma_prefix_hoverable(s, t, stop_index(s, t, 0));
    lemma_prefix_keeps_hoverable(s, t, stop_index(s, t, 0));
}

proof fn lemma_prefix_keeps_hoverable(s: Seq<HitCandidate>, t: Seq<(Entity, Pickable)>, n: int)
    requires
        0 <= n <= s.len(),
    ensures
        forall|j: int|
            0 <= j < n && hoverable(t, s[j]) ==> hoverable_prefix(s, t, n).contains(#[trigger] s[j]),
    decreases n,
{
    if n > 0 {
        lemma_prefix_keeps_hoverable(s, t, n - 1);
        let p = hoverable_prefix(s, t, n - 1);
        if hoverable(t, s[n - 1]) {
            assert forall|j: int| 0 <= j < n && hoverable(t, s[j]) implies p.push(s[n - 1]).contains(
                #[trigger] s[j],
            ) by {
                if j < n - 1 {
                    let k = choose|k: int| 0 <= k < p.len() && p[k] == s[j];
                    assert(p.push(s[n - 1])[k] == s[j]);
                } else {
                    assert(p.push(s[n - 1])[p.len() as int] == s[j]);
                }
            }
        }
    }
}

proof fn lemma_stop_after_removed(s: Seq<HitCandidate>, t: Seq<(Entity, Pickable)>, j: int, i: int)
    requires
        0 <= j < i <= s.len(),
    ensures
        stop_index(s, t, i) == stop_index(s.remove(j), t, i - 1) + 1,
    decreases s.len() - i,
{
    let r = s.remove(j);
    if i < s.len() {
        assert(r[i - 1] == s[i]);
        if !blocks(t, s[i]) {
            lemma_stop_after_removed(s, t, j, i + 1);
        }
    }
}

proof fn lemma_stop_before_removed(s: Seq<HitCandidate>, t: Seq<(Entity, Pickable)>, j: int, i: int)
    requires
        0 <= i <= j < s.len(),
        !blocks(t, s[j]),
    ensures
        stop_index(s, t, i) > j ==> stop_index(s, t, i) == stop_index(s.remove(j), t, i) + 1,
        stop_index(s, t, i) <= j ==> stop_index(s, t, i) == stop_index(s.remove(j), t, i),
    decreases j - i,
{
    let r = s.remove(j);
    if i == j {
        lemma_stop_after_removed(s, t, j, j + 1);
        lemma_stop_index(s, t, j + 1);
    } else {
        assert(r[i] == s[i]);
        if !blocks(t, s[i]) {
            lemma_stop_before_removed(s, t, j, i + 1);
        }
    }
}

proof fn lemma_prefix_removed(s: Seq<HitCandidate>, t: Seq<(Entity, Pickable)>, j: int, n: int)
    requires
        0 <= j < s.len(),
        0 <= n <= s.len(),
        !hoverable(t, s[j]),
    ensures
        n <= j ==> hoverable_prefix(s, t, n) == hoverable_prefix(s.remove(j), t, n),
        n > j ==> hoverable_prefix(s, t, n) == hoverable_prefix(s.remove(j), t, n - 1),
    decreases n,
{
    let r = s.remove(j);
    if n > 0 {
        lemma_prefix_removed(s, t, j, n - 1);
        if n - 1 < j {
            assert(r[n - 1] == s[n - 1]);
        } else if n - 1 > j {
            assert(r[n - 2] == s[n - 1]);
        }
    }
}

/// A hit on an ignored entity changes nothing, wherever it stands: the hover
/// set is the one computed with that hit removed.
pub proof fn lemma_ignore_removable(s: Seq<HitCandidate>, t: Seq<(Entity, Pickable)>, j: int)
    requires
        0 <= j < s.len(),
        pickable_in(t, s[j].entity) == ignore_pickable(),
    ensures
        hover_set(s, t) == hover_set(s.remove(j), t),
{
    lemma_stop_before_removed(s, t, j, 0);
    lemma_stop_index(s, t, 0);
    lemma_prefix_removed(s, t, j, stop_index(s, t, 0));
}

/// An ignored entity never enters the hover set, and a walk that reaches a hit
/// on it goes on past it.
pub proof fn lemma_ignore_is_transparent(s: Seq<HitCandidate>, t: Seq<(Entity, Pickable)>, j: int)
    requires
        0 <= j < s.len(),
        pickable_in(t, s[j].entity) == ignore_pickable(),
    ensures
        forall|i: int|
            0 <= i < hover_set(s, t).len() ==> (#[trigger] hover_set(s, t)[i]).entity != s[j].entity,
        stop_index(s, t, 0) > j && j + 1 < s.len() ==> stop_index(s, t, 0) > j + 1,
{
    lemma_hover_set_is_blocked_prefix(s, t);
}

} // verus!
