//! Broad phase: the proximity pair cache.
//!
//! The caller's bounding-volume tree performs the floating-point work (fat
//! AABB maintenance, overlap tests, ray descent) and reports the discrete
//! outcomes: a body was added or removed, two bodies came close, two bodies
//! separated, a body slept or woke.  This module owns everything that follows
//! from those reports: which pairs exist, that no pair is duplicated, that no
//! body is paired with itself, that no static-static pair is ever tracked,
//! and which narrow-phase state each pair carries.

use vstd::prelude::*;
use crate::body::Body;
use crate::dispatcher::{Dispatcher, PairwiseDetector};

verus! {

/// A registered body together with the tree's wake state for it.
#[derive(Clone, Copy)]
pub struct Leaf {
    pub body: Body,
    /// False while the body sleeps; its pairs stay cached meanwhile.
    pub active: bool,
}

/// A cached proximity pair and its narrow-phase state.
pub struct PairEntry<C> {
    pub body_a: Body,
    pub body_b: Body,
    pub detector: PairwiseDetector<C>,
}

/// Whether `e` is the pair of bodies `a` and `b`, in either order.
pub open spec fn pair_matches<C>(e: PairEntry<C>, a: usize, b: usize) -> bool {
    ||| (e.body_a.id() == a && e.body_b.id() == b)
    ||| (e.body_a.id() == b && e.body_b.id() == a)
}

/// Whether `e` involves the body `id`.
pub open spec fn pair_touches<C>(e: PairEntry<C>, id: usize) -> bool {
    e.body_a.id() == id || e.body_b.id() == id
}

/// Whether some entry pairs the bodies `a` and `b`, in either order.
pub open spec fn has_pair<C>(pairs: Seq<PairEntry<C>>, a: usize, b: usize) -> bool {
    exists|k: int| 0 <= k < pairs.len() && pair_matches(#[trigger] pairs[k], a, b)
}

/// A cache entry the dispatcher agreed to: the pair is valid (no self pair,
/// no static-static pair) and its detector is the one dispatch picks for the
/// body kinds.
pub open spec fn pair_ok<C>(e: PairEntry<C>) -> bool {
    &&& Dispatcher::spec_is_valid(e.body_a, e.body_b)
    &&& e.detector.is_gg() == Dispatcher::spec_supported(e.body_a, e.body_b)
}

/// `s` without the leaf of body `id`, order kept.
pub open spec fn leaves_without(s: Seq<Leaf>, id: usize) -> Seq<Leaf>
    decreases s.len(),
{
    if s.len() == 0 {
        Seq::empty()
    } else if s.last().body.id() == id {
        leaves_without(s.drop_last(), id)
    } else {
        leaves_without(s.drop_last(), id).push(s.last())
    }
}

/// `s` without every pair involving body `id`, order kept.
pub open spec fn pairs_without<C>(s: Seq<PairEntry<C>>, id: usize) -> Seq<PairEntry<C>>
    decreases s.len(),
{
    if s.len() == 0 {
        Seq::empty()
    } else if pair_touches(s.last(), id) {
        pairs_without(s.drop_last(), id)
    } else {
        pairs_without(s.drop_last(), id).push(s.last())
    }
}

/// `s` without the entry pairing `a` and `b` (in either order), order kept.
pub open spec fn pairs_without_match<C>(s: Seq<PairEntry<C>>, a: usize, b: usize) -> Seq<
    PairEntry<C>,
>
    decreases s.len(),
{
    if s.len() == 0 {
        Seq::empty()
    } else if pair_matches(s.last(), a, b) {
        pairs_without_match(s.drop_last(), a, b)
    } else {
        pairs_without_match(s.drop_last(), a, b).push(s.last())
    }
}

/// The pairs of `s` involving body `id`, order kept.
pub open spec fn pairs_touching<C>(s: Seq<PairEntry<C>>, id: usize) -> Seq<PairEntry<C>>
    decreases s.len(),
{
    if s.len() == 0 {
        Seq::empty()
    } else if pair_touches(s.last(), id) {
        pairs_touching(s.drop_last(), id).push(s.last())
    } else {
        pairs_touching(s.drop_last(), id)
    }
}

/// The broad-phase pair cache.
pub struct BroadPhase<C> {
    /// Decides pair validity and narrow-phase support.
    pub dispatcher: Dispatcher,
    /// The registered bodies, in registration order.
    pub leaves: Vec<Leaf>,
    /// The current proximity pairs, in creation order.
    pub pairs: Vec<PairEntry<C>>,
}

impl<C> BroadPhase<C> {
    /// Whether a body with handle `id` is registered.
    pub open spec fn has_body(self, id: usize) -> bool {
        exists|k: int| 0 <= k < self.leaves@.len() && (#[trigger] self.leaves@[k]).body.id() == id
    }

    /// No two leaves share a handle.
    pub open spec fn distinct_leaves(self) -> bool {
        forall|i: int, j: int|
            0 <= i < j < self.leaves@.len() ==> (#[trigger] self.leaves@[i]).body.id() != (
            #[trigger] self.leaves@[j]).body.id()
    }

    /// No two entries cache the same unordered pair of handles.
    pub open spec fn distinct_pairs(self) -> bool {
        forall|i: int, j: int|
            0 <= i < j < self.pairs@.len() ==> !pair_matches(
                #[trigger] self.pairs@[j],
                (#[trigger] self.pairs@[i]).body_a.id(),
                self.pairs@[i].body_b.id(),
            )
    }

    /// Well-formedness: handles are unique, no pair is duplicated, and every
    /// cached pair passed the dispatcher.
    pub open spec fn wf(self) -> bool {
        &&& self.distinct_leaves()
        &&& self.distinct_pairs()
        &&& forall|k: int| 0 <= k < self.pairs@.len() ==> pair_ok(#[trigger] self.pairs@[k])
    }

    /// An empty cache around the given dispatcher.
    pub fn new(dispatcher: Dispatcher) -> (r: BroadPhase<C>)
        ensures
            r.wf(),
            r.dispatcher == dispatcher,
            r.leaves@ == Seq::<Leaf>::empty(),
            r.pairs@ == Seq::<PairEntry<C>>::empty(),
    {
        BroadPhase { dispatcher, leaves: Vec::new(), pairs: Vec::new() }
    }

    /// Whether a body with handle `id` is registered.
    pub fn contains_body(&self, id: usize) -> (r: bool)
        ensures
            r == self.has_body(id),
    {
        let n = self.leaves.len();
        let mut i: usize = 0;
        while i < n
            invariant
                i <= n,
                n == self.leaves@.len(),
                forall|k: int| 0 <= k < i ==> (#[trigger] self.leaves@[k]).body.id() != id,
            decreases n - i,
        {
            if self.leaves[i].body.handle() == id {
                return true;
            }
            i += 1;
        }
        false
    }

    /// Registers a body.  The new leaf starts awake; no pair is created until
    /// the tree reports an overlap.  Registering a handle twice is a
    /// programmer error with no safe continuation, so it is ruled out here.
    pub fn add(&mut self, body: Body)
        requires
            old(self).wf(),
            !old(self).has_body(body.id()),
        ensures
            final(self).wf(),
            final(self).leaves@ == old(self).leaves@.push(Leaf { body, active: true }),
            final(self).pairs@ == old(self).pairs@,
            final(self).dispatcher == old(self).dispatcher,
    {
        self.leaves.push(Leaf { body, active: true });
    }

    /// Unregisters a body: its leaf and every pair involving it leave the
    /// cache, everything else keeps its order.  Removing a handle that was
    /// never registered is a programmer error with no safe continuation, so
    /// it is ruled out here, as double registration is.
    pub fn remove(&mut self, id: usize)
        requires
            old(self).wf(),
            old(self).has_body(id),
        ensures
            final(self).wf(),
            final(self).leaves@ == leaves_without(old(self).leaves@, id),
            final(self).pairs@ == pairs_without(old(self).pairs@, id),
            final(self).dispatcher == old(self).dispatcher,
    {
        let ghost orig_leaves = self.leaves@;
        let ghost orig_pairs = self.pairs@;
        let mut kept_leaves: Vec<Leaf> = Vec::new();
        let n = self.leaves.len();
        let mut i: usize = 0;
        while i < n
            invariant
                i <= n,
                n == self.leaves@.len(),
                self.leaves@ == orig_leaves,
                kept_leaves@ == leaves_without(orig_leaves.take(i as int), id),
            decreases n - i,
        {
            proof {
                assert(orig_leaves.take(i as int + 1).drop_last() =~= orig_leaves.take(i as int));
            }
            if self.leaves[i].body.handle() != id {
                kept_leaves.push(self.leaves[i]);
            }
            i += 1;
        }
        proof {
            assert(orig_leaves.take(n as int) =~= orig_leaves);
        }
        self.leaves = kept_leaves;

        let mut kept_pairs: Vec<PairEntry<C>> = Vec::new();
        let m = self.pairs.len();
        let mut j: usize = 0;
        while j < m
            invariant
                j <= m,
                m == orig_pairs.len(),
                self.pairs@ == orig_pairs.skip(j as int),
                self.leaves@ == leaves_without(orig_leaves, id),
                self.dispatcher == old(self).dispatcher,
                kept_pairs@ == pairs_without(orig_pairs.take(j as int), id),
            decreases m - j,
        {
            proof {
                assert(orig_pairs.take(j as int + 1).drop_last() =~= orig_pairs.take(j as int));
                assert(orig_pairs.skip(j as int)[0] == orig_pairs[j as int]);
                assert(orig_pairs.take(j as int + 1).last() == orig_pairs[j as int]);
            }
            let e = self.pairs.remove(0);
            proof {
                assert(self.pairs@ =~= orig_pairs.skip(j as int + 1));
            }
            if e.body_a.handle() != id && e.body_b.handle() != id {
                kept_pairs.push(e);
            }
            j += 1;
        }
        proof {
            assert(orig_pairs.take(m as int) =~= orig_pairs);
        }
        self.pairs = kept_pairs;
        proof {
            lemma_leaves_without_wf(orig_leaves, id);
            lemma_pairs_without_wf::<C>(orig_pairs, id);
            assert(self.wf());
        }
    }

    /// Records that the body `id` woke (`active` true) or slept (`active`
    /// false).  Only that leaf's wake flag changes; the pair cache is kept,
    /// so a sleeping body's pairs are still there to re-emit when it wakes.
    pub fn set_active(&mut self, id: usize, active: bool)
        requires
            old(self).wf(),
        ensures
            final(self).wf(),
            final(self).leaves@.len() == old(self).leaves@.len(),
            forall|k: int|
                0 <= k < old(self).leaves@.len() ==> (#[trigger] final(self).leaves@[k]).body
                    == old(self).leaves@[k].body && final(self).leaves@[k].active == (
                if old(self).leaves@[k].body.id() == id {
                    active
                } else {
                    old(self).leaves@[k].active
                }),
            final(self).pairs@ == old(self).pairs@,
            final(self).dispatcher == old(self).dispatcher,
    {
        let n = self.leaves.len();
        let mut flagged: Vec<Leaf> = Vec::new();
        let mut i: usize = 0;
        while i < n
            invariant
                i <= n,
                n == self.leaves@.len(),
                self.leaves@ == old(self).leaves@,
                flagged@.len() == i,
                forall|k: int|
                    0 <= k < i ==> (#[trigger] flagged@[k]).body == self.leaves@[k].body
                        && flagged@[k].active == (if self.leaves@[k].body.id() == id {
                        active
                    } else {
                        self.leaves@[k].active
                    }),
            decreases n - i,
        {
            let leaf = self.leaves[i];
            if leaf.body.handle() == id {
                flagged.push(Leaf { body: leaf.body, active });
            } else {
                flagged.push(leaf);
            }
            i += 1;
        }
        self.leaves = flagged;
    }

    /// The tree found the fat AABBs of the bodies `a` and `b` no longer
    /// overlapping: the pair leaves the cache, and its manifold with it.
    /// Reports whether a pair was cached.
    pub fn report_separation(&mut self, a: usize, b: usize) -> (r: bool)
        requires
            old(self).wf(),
        ensures
            final(self).wf(),
            final(self).leaves@ == old(self).leaves@,
            final(self).dispatcher == old(self).dispatcher,
            final(self).pairs@ == pairs_without_match(old(self).pairs@, a, b),
            r == has_pair(old(self).pairs@, a, b),
    {
        let ghost orig_pairs = self.pairs@;
        let mut kept: Vec<PairEntry<C>> = Vec::new();
        let mut found = false;
        let m = self.pairs.len();
        let mut j: usize = 0;
        while j < m
            invariant
                j <= m,
                m == orig_pairs.len(),
                self.pairs@ == orig_pairs.skip(j as int),
                self.leaves@ == old(self).leaves@,
                self.dispatcher == old(self).dispatcher,
                kept@ == pairs_without_match(orig_pairs.take(j as int), a, b),
                found == exists|k: int|
                    0 <= k < j && pair_matches(#[trigger] orig_pairs[k], a, b),
            decreases m - j,
        {
            proof {
                assert(orig_pairs.take(j as int + 1).drop_last() =~= orig_pairs.take(j as int));
                assert(orig_pairs.skip(j as int)[0] == orig_pairs[j as int]);
                assert(orig_pairs.take(j as int + 1).last() == orig_pairs[j as int]);
            }
            let e = self.pairs.remove(0);
            proof {
                assert(self.pairs@ =~= orig_pairs.skip(j as int + 1));
            }
            let ea = e.body_a.handle();
            let eb = e.body_b.handle();
            if (ea == a && eb == b) || (ea == b && eb == a) {
                found = true;
            } else {
                kept.push(e);
            }
            j += 1;
        }
        proof {
            assert(orig_pairs.take(m as int) =~= orig_pairs);
        }
        self.pairs = kept;
        proof {
            lemma_pairs_without_match_wf::<C>(orig_pairs, a, b);
        }
        found
    }

    /// The tree found the fat AABBs of two registered bodies overlapping.  A
    /// pair entry is created exactly when the dispatcher agrees the pair is
    /// valid (no self pair, no static-static pair) and the pair is not cached
    /// yet; its detector is what dispatch picks for the body kinds.  Returns
    /// whether a pair was created.
    pub fn report_overlap(&mut self, a: &Body, b: &Body) -> (r: bool)
        requires
            old(self).wf(),
            old(self).has_body(a.id()),
            old(self).has_body(b.id()),
        ensures
            final(self).wf(),
            final(self).leaves@ == old(self).leaves@,
            final(self).dispatcher == old(self).dispatcher,
            r == (Dispatcher::spec_is_valid(*a, *b) && !has_pair(old(self).pairs@, a.id(), b.id())),
            !r ==> final(self).pairs@ == old(self).pairs@,
            r ==> final(self).pairs@.len() == old(self).pairs@.len() + 1
                && final(self).pairs@.drop_last() == old(self).pairs@
                && final(self).pairs@.last().body_a == *a
                && final(self).pairs@.last().body_b == *b
                && final(self).pairs@.last().detector.is_gg() == Dispatcher::spec_supported(*a, *b)
                && final(self).pairs@.last().detector.contacts() == Seq::<C>::empty(),
    {
        if !self.dispatcher.is_valid(a, b) {
            return false;
        }
        let a_id = a.handle();
        let b_id = b.handle();
        let m = self.pairs.len();
        let mut k: usize = 0;
        while k < m
            invariant
                k <= m,
                m == self.pairs@.len(),
                self == old(self),
                self.wf(),
                a_id == a.id(),
                b_id == b.id(),
                forall|j: int| 0 <= j < k ==> !pair_matches(#[trigger] self.pairs@[j], a_id, b_id),
            decreases m - k,
        {
            let e = &self.pairs[k];
            let ea = e.body_a.handle();
            let eb = e.body_b.handle();
            if (ea == a_id && eb == b_id) || (ea == b_id && eb == a_id) {
                return false;
            }
            k += 1;
        }
        let detector = self.dispatcher.dispatch(a, b);
        let ghost before = self.pairs@;
        self.pairs.push(PairEntry { body_a: *a, body_b: *b, detector });
        proof {
            assert(self.pairs@.drop_last() =~= before);
            assert forall|i: int, j: int| 0 <= i < j < self.pairs@.len() implies !pair_matches(
                #[trigger] self.pairs@[j],
                (#[trigger] self.pairs@[i]).body_a.id(),
                self.pairs@[i].body_b.id(),
            ) by {
                if j == self.pairs@.len() - 1 {
                    assert(!pair_matches(before[i], a_id, b_id));
                }
            }
        }
        true
    }
}

/// Every leaf of `leaves_without(s, id)` is a leaf of `s`.
proof fn lemma_leaves_without_membership(s: Seq<Leaf>, id: usize)
    ensures
        forall|k: int|
            0 <= k < leaves_without(s, id).len() ==> exists|j: int|
                0 <= j < s.len() && #[trigger] leaves_without(s, id)[k] == s[j],
    decreases s.len(),
{
    if s.len() > 0 {
        lemma_leaves_without_membership(s.drop_last(), id);
        assert forall|k: int| 0 <= k < leaves_without(s, id).len() implies exists|j: int|
            0 <= j < s.len() && #[trigger] leaves_without(s, id)[k] == s[j] by {
            let rec = leaves_without(s.drop_last(), id);
            if k < rec.len() {
                let j = choose|j: int| 0 <= j < s.drop_last().len() && rec[k] == s.drop_last()[j];
                assert(leaves_without(s, id)[k] == s[j]);
            } else {
                assert(leaves_without(s, id)[k] == s[s.len() - 1]);
            }
        }
    }
}

/// Removing a body's leaf keeps the remaining handles distinct.
proof fn lemma_leaves_without_wf(s: Seq<Leaf>, id: usize)
    requires
        forall|i: int, j: int|
            0 <= i < j < s.len() ==> (#[trigger] s[i]).body.id() != (#[trigger] s[j]).body.id(),
    ensures
        forall|i: int, j: int|
            0 <= i < j < leaves_without(s, id).len() ==> (#[trigger] leaves_without(s, id)[i]).body.id()
                != (#[trigger] leaves_without(s, id)[j]).body.id(),
    decreases s.len(),
{
    if s.len() > 0 {
        lemma_leaves_without_wf(s.drop_last(), id);
        lemma_leaves_without_membership(s.drop_last(), id);
        let f = leaves_without(s, id);
        let rec = leaves_without(s.drop_last(), id);
        assert forall|i: int, j: int| 0 <= i < j < f.len() implies (#[trigger] f[i]).body.id() != (
        #[trigger] f[j]).body.id() by {
            if j == f.len() - 1 && !(s.last().body.id() == id) {
                let m = choose|m: int| 0 <= m < s.drop_last().len() && rec[i] == s.drop_last()[m];
                assert(s[m].body.id() != s[s.len() - 1].body.id());
            }
        }
    }
}

/// Every entry of `pairs_without(s, id)` is an entry of `s`.
proof fn lemma_pairs_without_membership<C>(s: Seq<PairEntry<C>>, id: usize)
    ensures
        forall|k: int|
            0 <= k < pairs_without(s, id).len() ==> exists|j: int|
                0 <= j < s.len() && #[trigger] pairs_without(s, id)[k] == s[j],
    decreases s.len(),
{
    if s.len() > 0 {
        lemma_pairs_without_membership(s.drop_last(), id);
        assert forall|k: int| 0 <= k < pairs_without(s, id).len() implies exists|j: int|
            0 <= j < s.len() && #[trigger] pairs_without(s, id)[k] == s[j] by {
            let rec = pairs_without(s.drop_last(), id);
            if k < rec.len() {
                let j = choose|j: int| 0 <= j < s.drop_last().len() && rec[k] == s.drop_last()[j];
                assert(pairs_without(s, id)[k] == s[j]);
            } else {
                assert(pairs_without(s, id)[k] == s[s.len() - 1]);
            }
        }
    }
}

/// Removing a body's pairs keeps the rest well formed: entries stay
/// dispatcher-approved and no unordered pair appears twice.
proof fn lemma_pairs_without_wf<C>(s: Seq<PairEntry<C>>, id: usize)
    requires
        forall|k: int| 0 <= k < s.len() ==> pair_ok(#[trigger] s[k]),
        forall|i: int, j: int|
            0 <= i < j < s.len() ==> !pair_matches(
                #[trigger] s[j],
                (#[trigger] s[i]).body_a.id(),
                s[i].body_b.id(),
            ),
    ensures
        forall|k: int| 0 <= k < pairs_without(s, id).len() ==> pair_ok(#[trigger] pairs_without(s, id)[k]),
        forall|i: int, j: int|
            0 <= i < j < pairs_without(s, id).len() ==> !pair_matches(
                #[trigger] pairs_without(s, id)[j],
                (#[trigger] pairs_without(s, id)[i]).body_a.id(),
                pairs_without(s, id)[i].body_b.id(),
            ),
    decreases s.len(),
{
    if s.len() > 0 {
        lemma_pairs_without_wf(s.drop_last(), id);
        lemma_pairs_without_membership(s.drop_last(), id);
        let f = pairs_without(s, id);
        let rec = pairs_without(s.drop_last(), id);
        assert forall|k: int| 0 <= k < f.len() implies pair_ok(#[trigger] f[k]) by {
            if !(pair_touches(s.last(), id)) && k == f.len() - 1 {
                assert(pair_ok(s[s.len() - 1]));
            }
        }
        assert forall|i: int, j: int| 0 <= i < j < f.len() implies !pair_matches(
            #[trigger] f[j],
            (#[trigger] f[i]).body_a.id(),
            f[i].body_b.id(),
        ) by {
            if j == f.len() - 1 && !(pair_touches(s.last(), id)) {
                let m = choose|m: int| 0 <= m < s.drop_last().len() && rec[i] == s.drop_last()[m];
                assert(!pair_matches(s[s.len() - 1], s[m].body_a.id(), s[m].body_b.id()));
            }
        }
    }
}

/// Every entry of `pairs_without_match(s, a, b)` is an entry of `s`.
proof fn lemma_pairs_without_match_membership<C>(s: Seq<PairEntry<C>>, a: usize, b: usize)
    ensures
        forall|k: int|
            0 <= k < pairs_without_match(s, a, b).len() ==> exists|j: int|
                0 <= j < s.len() && #[trigger] pairs_without_match(s, a, b)[k] == s[j],
    decreases s.len(),
{
    if s.len() > 0 {
        lemma_pairs_without_match_membership(s.drop_last(), a, b);
        assert forall|k: int| 0 <= k < pairs_without_match(s, a, b).len() implies exists|j: int|
            0 <= j < s.len() && #[trigger] pairs_without_match(s, a, b)[k] == s[j] by {
            let rec = pairs_without_match(s.drop_last(), a, b);
            if k < rec.len() {
                let j = choose|j: int| 0 <= j < s.drop_last().len() && rec[k] == s.drop_last()[j];
                assert(pairs_without_match(s, a, b)[k] == s[j]);
            } else {
                assert(pairs_without_match(s, a, b)[k] == s[s.len() - 1]);
            }
        }
    }
}

/// Dropping a separated pair keeps the rest well formed.
proof fn lemma_pairs_without_match_wf<C>(s: Seq<PairEntry<C>>, a: usize, b: usize)
    requires
        forall|k: int| 0 <= k < s.len() ==> pair_ok(#[trigger] s[k]),
        forall|i: int, j: int|
            0 <= i < j < s.len() ==> !pair_matches(
                #[trigger] s[j],
                (#[trigger] s[i]).body_a.id(),
                s[i].body_b.id(),
            ),
    ensures
        forall|k: int|
            0 <= k < pairs_without_match(s, a, b).len() ==> pair_ok(
                #[trigger] pairs_without_match(s, a, b)[k],
            ),
        forall|i: int, j: int|
            0 <= i < j < pairs_without_match(s, a, b).len() ==> !pair_matches(
                #[trigger] pairs_without_match(s, a, b)[j],
                (#[trigger] pairs_without_match(s, a, b)[i]).body_a.id(),
                pairs_without_match(s, a, b)[i].body_b.id(),
            ),
    decreases s.len(),
{
    if s.len() > 0 {
        lemma_pairs_without_match_wf(s.drop_last(), a, b);
        lemma_pairs_without_match_membership(s.drop_last(), a, b);
        let f = pairs_without_match(s, a, b);
        let rec = pairs_without_match(s.drop_last(), a, b);
        assert forall|k: int| 0 <= k < f.len() implies pair_ok(#[trigger] f[k]) by {
            if !(pair_matches(s.last(), a, b)) && k == f.len() - 1 {
                assert(pair_ok(s[s.len() - 1]));
            }
        }
        assert forall|i: int, j: int| 0 <= i < j < f.len() implies !pair_matches(
            #[trigger] f[j],
            (#[trigger] f[i]).body_a.id(),
            f[i].body_b.id(),
        ) by {
            if j == f.len() - 1 && !(pair_matches(s.last(), a, b)) {
                let m = choose|m: int| 0 <= m < s.drop_last().len() && rec[i] == s.drop_last()[m];
                assert(!pair_matches(s[s.len() - 1], s[m].body_a.id(), s[m].body_b.id()));
            }
        }
    }
}

} // verus!
