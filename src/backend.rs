//! Hit candidates reported by backends, and their merge into one ranked
//! sequence per pointer.
use vstd::prelude::*;
use crate::Entity;
use crate::pointer::PointerId;

verus! {

/// One entity reported as hit under a pointer by a backend, for the current frame.
#[derive(Clone, Copy, Debug, PartialEq, Eq, Structural)]
pub struct HitCandidate {
    /// The pointer whose query produced the hit.
    pub pointer: PointerId,
    /// The entity that was hit.
    pub entity: Entity,
    /// The hit depth as an IEEE-754 single bit pattern; non-negative depths
    /// order as their bit patterns do, lower being nearer.
    pub depth: u32,
    /// The reporting backend's source priority; lower values rank first.
    pub order: u32,
}

/// Whether `a` ranks strictly before `b`: priority first, depth second.
pub open spec fn ranks_before(a: HitCandidate, b: HitCandidate) -> bool {
    a.order < b.order || (a.order == b.order && a.depth < b.depth)
}

/// Stable insertion of `x` into `t`: after every entry that `x` does not rank before.
pub open spec fn insert_ranked(t: Seq<HitCandidate>, x: HitCandidate) -> Seq<HitCandidate>
    decreases t.len(),
{
    if t.len() == 0 {
        seq![x]
    } else if ranks_before(x, t[0]) {
        seq![x] + t
    } else {
        seq![t[0]] + insert_ranked(t.drop_first(), x)
    }
}

/// The ranked merge of the first `n` submissions that belong to `pointer`.
pub open spec fn merged(s: Seq<HitCandidate>, pointer: PointerId, n: int) -> Seq<HitCandidate>
    decreases n,
{
    if n <= 0 {
        Seq::empty()
    } else {
        let m = merged(s, pointer, n - 1);
        if s[n - 1].pointer == pointer {
            insert_ranked(m, s[n - 1])
        } else {
            m
        }
    }
}

/// Whether `t` is in ranked order.
pub open spec fn is_ranked(t: Seq<HitCandidate>) -> bool {
    forall|i: int, j: int| 0 <= i < j < t.len() ==> !ranks_before(#[trigger] t[j], #[trigger] t[i])
}

proof fn lemma_insert_at(t: Seq<HitCandidate>, x: HitCandidate, i: int)
    requires
        0 <= i <= t.len(),
        forall|j: int| 0 <= j < i ==> !ranks_before(x, #[trigger] t[j]),
        i < t.len() ==> ranks_before(x, t[i]),
    ensures
        insert_ranked(t, x) == t.take(i) + seq![x] + t.skip(i),
    decreases t.len(),
{
    if t.len() == 0 {
        assert(t.take(i) + seq![x] + t.skip(i) =~= seq![x]);
    } else if i == 0 {
        assert(t.take(i) + seq![x] + t.skip(i) =~= seq![x] + t);
    } else {
        let d = t.drop_first();
        assert forall|j: int| 0 <= j < i - 1 implies !ranks_before(x, #[trigger] d[j]) by {
            assert(d[j] == t[j + 1]);
        }
        lemma_insert_at(d, x, i - 1);
        assert(t.take(i) + seq![x] + t.skip(i) =~= seq![t[0]] + (d.take(i - 1) + seq![x] + d.skip(
            i - 1,
        )));
    }
}

proof fn lemma_insert_keeps_ranked(t: Seq<HitCandidate>, x: HitCandidate)
    requires
        is_ranked(t),
    ensures
        is_ranked(insert_ranked(t, x)),
        insert_ranked(t, x).len() == t.len() + 1,
        insert_ranked(t, x).to_multiset() == t.to_multiset().insert(x),
    decreases t.len(),
{
    if t.len() == 0 {
        assert(t =~= Seq::<HitCandidate>::empty());
        assert(seq![x].to_multiset() =~= Seq::<HitCandidate>::empty().to_multiset().insert(x)) by {
            broadcast use vstd::seq_lib::group_to_multiset_ensures;
            broadcast use vstd::multiset::group_multiset_properties;
        }
    } else if ranks_before(x, t[0]) {
        let r = seq![x] + t;
        assert forall|i: int, j: int| 0 <= i < j < r.len() implies !ranks_before(
            #[trigger] r[j],
            #[trigger] r[i],
        ) by {
            if i == 0 {
                assert(r[j] == t[j - 1]);
                if j > 1 {
                    assert(!ranks_before(t[j - 1], t[0]));
                }
            } else {
                assert(r[i] == t[i - 1] && r[j] == t[j - 1]);
            }
        }
        broadcast use vstd::seq_lib::group_to_multiset_ensures;
        assert(r =~= t.insert(0, x));
    } else {
        let d = t.drop_first();
        assert forall|i: int, j: int| 0 <= i < j < d.len() implies !ranks_before(
            #[trigger] d[j],
            #[trigger] d[i],
        ) by {
            assert(d[i] == t[i + 1] && d[j] == t[j + 1]);
        }
        lemma_insert_keeps_ranked(d, x);
        let m = insert_ranked(d, x);
        let r = seq![t[0]] + m;
        assert forall|i: int, j: int| 0 <= i < j < r.len() implies !ranks_before(
            #[trigger] r[j],
            #[trigger] r[i],
        ) by {
            if i == 0 {
                assert(r[j] == m[j - 1]);
                assert(m.to_multiset().count(m[j - 1]) > 0) by {
                    broadcast use vstd::seq_lib::group_to_multiset_ensures;
                }
                assert(m.contains(m[j - 1]));
                if m[j - 1] != x {
                    assert(d.to_multiset().count(m[j - 1]) > 0);
                    broadcast use vstd::seq_lib::group_to_multiset_ensures;
                    let k = choose|k: int| 0 <= k < d.len() && d[k] == m[j - 1];
                    assert(d[k] == t[k + 1]);
                }
            } else {
                assert(r[i] == m[i - 1] && r[j] == m[j - 1]);
            }
        }
        broadcast use vstd::seq_lib::group_to_multiset_ensures;
        assert(t =~= d.insert(0, t[0]));
        assert(r =~= m.insert(0, t[0]));
        assert(r.to_multiset() =~= t.to_multiset().insert(x));
    }
}

/// Every merge of submissions is in ranked order and holds only hits of its pointer,
/// each as often as it was submitted.
pub proof fn lemma_merge_ranked(s: Seq<HitCandidate>, pointer: PointerId, n: int)
    requires
        0 <= n <= s.len(),
    ensures
        is_ranked(merged(s, pointer, n)),
        forall|h: HitCandidate| #[trigger]
            merged(s, pointer, n).to_multiset().count(h) > 0 ==> h.pointer == pointer,
    decreases n,
{
    broadcast use vstd::seq_lib::group_to_multiset_ensures;
    broadcast use vstd::multiset::group_multiset_axioms;

    if n > 0 {
        lemma_merge_ranked(s, pointer, n - 1);
        let m = merged(s, pointer, n - 1);
        if s[n - 1].pointer == pointer {
            lemma_insert_keeps_ranked(m, s[n - 1]);
        }
    }
}

/// Collects the hit candidates that backends submit during one frame.
pub struct HitAggregator {
    /// Every submitted candidate, in submission order.
    pub hits: Vec<HitCandidate>,
}

impl View for HitAggregator {
    type V = Seq<HitCandidate>;

    open spec fn view(&self) -> Seq<HitCandidate> {
        self.hits@
    }
}

fn ranks_before_exec(a: &HitCandidate, b: &HitCandidate) -> (r: bool)
    ensures
        r == ranks_before(*a, *b),
{
    a.order < b.order || (a.order == b.order && a.depth < b.depth)
}

impl HitAggregator {
    /// An aggregator with no submissions, as at the start of a frame.
    pub fn new() -> (r: Self)
        ensures
            r@ == Seq::<HitCandidate>::empty(),
    {
        HitAggregator { hits: Vec::new() }
    }

    /// Records one backend's batch of candidates after all earlier submissions.
    pub fn submit(&mut self, batch: &Vec<HitCandidate>)
        ensures
            final(self)@ == old(self)@ + batch@,
    {
        let mut i: usize = 0;
        while i < batch.len()
            invariant
                i <= batch@.len(),
                self@ == old(self)@ + batch@.take(i as int),
            decreases batch@.len() - i,
        {
            self.hits.push(batch[i]);
            i = i + 1;
            assert(self@ =~= old(self)@ + batch@.take(i as int));
        }
        assert(batch@.take(batch@.len() as int) =~= batch@);
    }

    /// All candidates submitted for `pointer`, ranked by source priority, then
    /// depth, with ties kept in submission order.
    pub fn collect(&self, pointer: PointerId) -> (r: Vec<HitCandidate>)
        ensures
            r@ == merged(self@, pointer, self@.len() as int),
    {
        let mut out: Vec<HitCandidate> = Vec::new();
        let mut i: usize = 0;
        while i < self.hits.len()
            invariant
                i <= self@.len(),
                out@ == merged(self@, pointer, i as int),
            decreases self@.len() - i,
        {
            let h = self.hits[i];
            if h.pointer == pointer {
                let mut j: usize = 0;
                while j < out.len() && !ranks_before_exec(&h, &out[j])
                    invariant
                        j <= out@.len(),
                        forall|k: int| 0 <= k < j ==> !ranks_before(h, #[trigger] out@[k]),
                    decreases out@.len() - j,
                {
                    j = j + 1;
                }
                proof {
                    lemma_insert_at(out@, h, j as int);
                    assert(out@.take(j as int) + seq![h] + out@.skip(j as int) =~= out@.insert(
                        j as int,
                        h,
                    ));
                }
                out.insert(j, h);
            }
            i = i + 1;
        }
        out
    }
}

} // verus!
