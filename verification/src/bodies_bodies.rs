//! Bodies-bodies detector: bridges the broad-phase pair cache to the
//! constraint solver.
//!
//! Each step the detector lists the supported pairs whose narrow-phase state
//! the caller's geometric kernel must refresh, stores the refreshed manifolds
//! back into the cache, and drains every cached contact into a contact
//! constraint, in cache order.  It also listens on the signal bus: a woken
//! body has its cached pairs re-emitted so downstream components can rebuild
//! state, and a slept body is handed to the broad phase, which keeps its
//! pairs cached.

use vstd::prelude::*;
use crate::body::Body;
use crate::broad_phase::{BroadPhase, PairEntry, pair_matches, pairs_touching};
use crate::constraint::Constraint;
use crate::dispatcher::{GeomGeom, PairwiseDetector};
use crate::signal::{Channel, SignalBus};

verus! {

/// Detectors run after the integrators and before the island manager and the
/// solver in the shipped pipeline.
pub const BODIES_BODIES_PRIORITY: u64 = 50;

/// The contact constraints a single pair entry contributes: one constraint
/// per cached contact, holding the pair's two bodies.
pub open spec fn pair_constraints<C>(e: PairEntry<C>) -> Seq<Constraint<C>> {
    e.detector.contacts().map_values(|c: C| Constraint::RBRB(e.body_a, e.body_b, c))
}

/// The constraints a sweep over `pairs` emits, in cache order; pairs without
/// a supported detector contribute nothing.
pub open spec fn all_constraints<C>(pairs: Seq<PairEntry<C>>) -> Seq<Constraint<C>>
    decreases pairs.len(),
{
    if pairs.len() == 0 {
        Seq::empty()
    } else {
        all_constraints(pairs.drop_last()) + pair_constraints(pairs.last())
    }
}

/// The handle pairs of the supported (rigid-rigid) entries, in cache order:
/// the pairs whose narrow-phase state a step must refresh.
pub open spec fn gg_pair_ids<C>(pairs: Seq<PairEntry<C>>) -> Seq<(usize, usize)>
    decreases pairs.len(),
{
    if pairs.len() == 0 {
        Seq::empty()
    } else if pairs.last().detector.is_gg() {
        gg_pair_ids(pairs.drop_last()).push(
            (pairs.last().body_a.id(), pairs.last().body_b.id()),
        )
    } else {
        gg_pair_ids(pairs.drop_last())
    }
}

/// The ray-query result assembled from broad-phase candidates and the
/// caller's per-shape casts: each candidate whose shape the ray hits, paired
/// with the cast's parametric distance, in candidate order.
pub open spec fn ray_hits<N>(candidates: Seq<Body>, casts: Seq<Option<N>>) -> Seq<(Body, N)>
    decreases candidates.len(),
{
    if candidates.len() == 0 || casts.len() == 0 {
        Seq::empty()
    } else {
        ray_hits(candidates.drop_last(), casts.drop_last()) + match casts.last() {
            Some(t) => seq![(candidates.last(), t)],
            None => Seq::empty(),
        }
    }
}

/// The bodies-bodies detector.  It owns the broad-phase pair cache; when
/// `update_bf` is false another subsystem (typically a continuous-collision
/// integrator sharing the tree) drives body add and remove instead.
pub struct BodiesBodies<C> {
    pub broad_phase: BroadPhase<C>,
    pub update_bf: bool,
}

impl<C: Copy> BodiesBodies<C> {
    /// A detector around the given pair cache, subscribed on the bus to body
    /// activation and deactivation under the identity `subscriber`, so the
    /// caller can route those two events to `activate` and `deactivate`.
    pub fn new(
        events: &mut SignalBus,
        subscriber: usize,
        broad_phase: BroadPhase<C>,
        update_bf: bool,
    ) -> (r: BodiesBodies<C>)
        ensures
            r.broad_phase == broad_phase,
            r.update_bf == update_bf,
            final(events).subscribers(Channel::BodyActivated) == old(events).subscribers(
                Channel::BodyActivated,
            ).push(subscriber),
            final(events).subscribers(Channel::BodyDeactivated) == old(events).subscribers(
                Channel::BodyDeactivated,
            ).push(subscriber),
            forall|c: Channel|
                c != Channel::BodyActivated && c != Channel::BodyDeactivated
                    ==> final(events).subscribers(c) == old(events).subscribers(c),
            final(events).pending@ == old(events).pending@,
    {
        events.subscribe(Channel::BodyActivated, subscriber);
        events.subscribe(Channel::BodyDeactivated, subscriber);
        BodiesBodies { broad_phase, update_bf }
    }

    /// The detector's well-formed pair cache.
    pub open spec fn wf(self) -> bool {
        self.broad_phase.wf()
    }

    /// Registers a body with the broad phase, when this detector drives the
    /// tree.  Registering a handle twice is a programmer error with no safe
    /// continuation, so it is ruled out here.
    pub fn add(&mut self, o: &Body)
        requires
            old(self).wf(),
            old(self).update_bf ==> !old(self).broad_phase.has_body(o.id()),
        ensures
            final(self).wf(),
            final(self).update_bf == old(self).update_bf,
            final(self).broad_phase.dispatcher == old(self).broad_phase.dispatcher,
            final(self).broad_phase.pairs@ == old(self).broad_phase.pairs@,
            old(self).update_bf ==> final(self).broad_phase.leaves@ == old(
                self,
            ).broad_phase.leaves@.push(crate::broad_phase::Leaf { body: *o, active: true }),
            !old(self).update_bf ==> final(self).broad_phase.leaves@ == old(
                self,
            ).broad_phase.leaves@,
    {
        if self.update_bf {
            self.broad_phase.add(*o);
        }
    }

    /// Unregisters a body, when this detector drives the tree: its leaf and
    /// every pair involving it leave the cache.  Removing a body the broad
    /// phase does not know is a programmer error with no safe continuation,
    /// so it is ruled out here, as double registration is in `add`.
    pub fn remove(&mut self, o: &Body)
        requires
            old(self).wf(),
            old(self).update_bf ==> old(self).broad_phase.has_body(o.id()),
        ensures
            final(self).wf(),
            final(self).update_bf == old(self).update_bf,
            final(self).broad_phase.dispatcher == old(self).broad_phase.dispatcher,
            old(self).update_bf ==> final(self).broad_phase.leaves@
                == crate::broad_phase::leaves_without(old(self).broad_phase.leaves@, o.id())
                && final(self).broad_phase.pairs@ == crate::broad_phase::pairs_without(
                old(self).broad_phase.pairs@,
                o.id(),
            ),
            !old(self).update_bf ==> final(self).broad_phase == old(self).broad_phase,
    {
        if self.update_bf {
            self.broad_phase.remove(o.handle());
        }
    }

    /// The pairs whose narrow-phase state this step must refresh: the handle
    /// pairs of every supported entry, in cache order.  The caller runs its
    /// geometric kernel on each and stores the result with `update_pair`.
    pub fn update_targets(&self) -> (r: Vec<(usize, usize)>)
        ensures
            r@ == gg_pair_ids(self.broad_phase.pairs@),
    {
        let mut out: Vec<(usize, usize)> = Vec::new();
        let n = self.broad_phase.pairs.len();
        let mut i: usize = 0;
        while i < n
            invariant
                i <= n,
                n == self.broad_phase.pairs@.len(),
                out@ == gg_pair_ids(self.broad_phase.pairs@.take(i as int)),
            decreases n - i,
        {
            proof {
                assert(self.broad_phase.pairs@.take(i as int + 1).drop_last()
                    =~= self.broad_phase.pairs@.take(i as int));
            }
            let e = &self.broad_phase.pairs[i];
            if e.detector.supported() {
                out.push((e.body_a.handle(), e.body_b.handle()));
            }
            i += 1;
        }
        proof {
            assert(self.broad_phase.pairs@.take(n as int) =~= self.broad_phase.pairs@);
        }
        out
    }

    /// Stores the freshly computed manifold of the supported pair `(a, b)`
    /// back into the cache; every other entry, the bodies, and the leaves are
    /// untouched.  Returns whether such a pair was cached; contacts for a
    /// pair that left the cache meanwhile are discarded.
    pub fn update_pair(&mut self, a: usize, b: usize, contacts: Vec<C>) -> (r: bool)
        requires
            old(self).wf(),
        ensures
            final(self).wf(),
            final(self).update_bf == old(self).update_bf,
            final(self).broad_phase.dispatcher == old(self).broad_phase.dispatcher,
            final(self).broad_phase.leaves@ == old(self).broad_phase.leaves@,
            final(self).broad_phase.pairs@.len() == old(self).broad_phase.pairs@.len(),
            r == exists|k: int|
                0 <= k < old(self).broad_phase.pairs@.len() && pair_matches(
                    #[trigger] old(self).broad_phase.pairs@[k],
                    a,
                    b,
                ) && old(self).broad_phase.pairs@[k].detector.is_gg(),
            forall|k: int|
                0 <= k < old(self).broad_phase.pairs@.len() && !(pair_matches(
                    #[trigger] old(self).broad_phase.pairs@[k],
                    a,
                    b,
                ) && old(self).broad_phase.pairs@[k].detector.is_gg()) ==> final(self).broad_phase.pairs@[k] == old(self).broad_phase.pairs@[k],
            forall|k: int|
                0 <= k < old(self).broad_phase.pairs@.len() && pair_matches(
                    #[trigger] old(self).broad_phase.pairs@[k],
                    a,
                    b,
                ) && old(self).broad_phase.pairs@[k].detector.is_gg() ==> final(self).broad_phase.pairs@[k].body_a == old(self).broad_phase.pairs@[k].body_a && final(self).broad_phase.pairs@[k].body_b == old(self).broad_phase.pairs@[k].body_b && final(self).broad_phase.pairs@[k].detector.is_gg() && final(self).broad_phase.pairs@[k].detector.contacts() == contacts@,
    {
        let m = self.broad_phase.pairs.len();
        let mut idx: usize = m;
        let mut k: usize = 0;
        while k < m
            invariant
                k <= m,
                m == self.broad_phase.pairs@.len(),
                self == old(self),
                idx == m || (idx < k && pair_matches(self.broad_phase.pairs@[idx as int], a, b)
                    && self.broad_phase.pairs@[idx as int].detector.is_gg()),
                idx == m ==> forall|j: int|
                    0 <= j < k ==> !(pair_matches(#[trigger] self.broad_phase.pairs@[j], a, b)
                        && self.broad_phase.pairs@[j].detector.is_gg()),
            decreases m - k,
        {
            if idx == m {
                let e = &self.broad_phase.pairs[k];
                let ea = e.body_a.handle();
                let eb = e.body_b.handle();
                if ((ea == a && eb == b) || (ea == b && eb == a)) && e.detector.supported() {
                    idx = k;
                }
            }
            k += 1;
        }
        if idx < m {
            let ghost orig = self.broad_phase.pairs@;
            let mut e = self.broad_phase.pairs.remove(idx);
            e.detector = PairwiseDetector::GG(GeomGeom { contacts });
            self.broad_phase.pairs.insert(idx, e);
            proof {
                assert(self.broad_phase.pairs@ =~= orig.update(
                    idx as int,
                    PairEntry {
                        body_a: orig[idx as int].body_a,
                        body_b: orig[idx as int].body_b,
                        detector: e.detector,
                    },
                ));
                assert forall|j: int|
                    0 <= j < orig.len() && j != idx implies !(pair_matches(
                    #[trigger] orig[j],
                    a,
                    b,
                ) && orig[j].detector.is_gg()) by {
                    if pair_matches(orig[j], a, b) {
                        if j < idx {
                            assert(!pair_matches(orig[idx as int], orig[j].body_a.id(),
                                orig[j].body_b.id()));
                        } else {
                            assert(!pair_matches(orig[j], orig[idx as int].body_a.id(),
                                orig[idx as int].body_b.id()));
                        }
                    }
                }
            }
            true
        } else {
            false
        }
    }

    /// Drains the cache into contact constraints appended to `out`: one
    /// constraint per cached contact, in cache order.  Unsupported pairs are
    /// skipped; the cached manifolds stay in place, carrying their
    /// accumulated impulses to the next step.
    pub fn interferences(&self, out: &mut Vec<Constraint<C>>)
        ensures
            final(out)@ == old(out)@ + all_constraints(self.broad_phase.pairs@),
    {
        let n = self.broad_phase.pairs.len();
        let mut i: usize = 0;
        while i < n
            invariant
                i <= n,
                n == self.broad_phase.pairs@.len(),
                out@ == old(out)@ + all_constraints(self.broad_phase.pairs@.take(i as int)),
            decreases n - i,
        {
            let ghost pairs = self.broad_phase.pairs@;
            let e = &self.broad_phase.pairs[i];
            let ba = e.body_a;
            let bb = e.body_b;
            match &e.detector {
                PairwiseDetector::GG(g) => {
                    let m = g.contacts.len();
                    let mut j: usize = 0;
                    while j < m
                        invariant
                            j <= m,
                            m == g.contacts@.len(),
                            0 <= i < pairs.len(),
                            pairs == self.broad_phase.pairs@,
                            pairs[i as int].body_a == ba,
                            pairs[i as int].body_b == bb,
                            pairs[i as int].detector.contacts() == g.contacts@,
                            out@ == old(out)@ + all_constraints(pairs.take(i as int))
                                + g.contacts@.take(j as int).map_values(
                                |c: C| Constraint::RBRB(ba, bb, c),
                            ),
                        decreases m - j,
                    {
                        proof {
                            assert(g.contacts@.take(j as int + 1).map_values(
                                |c: C| Constraint::RBRB(ba, bb, c),
                            ) =~= g.contacts@.take(j as int).map_values(
                                |c: C| Constraint::RBRB(ba, bb, c),
                            ).push(Constraint::RBRB(ba, bb, g.contacts@[j as int])));
                        }
                        out.push(Constraint::RBRB(ba, bb, g.contacts[j]));
                        proof {
                            assert(out@ =~= old(out)@ + all_constraints(pairs.take(i as int))
                                + g.contacts@.take(j as int + 1).map_values(
                                |c: C| Constraint::RBRB(ba, bb, c),
                            ));
                        }
                        j += 1;
                    }
                    proof {
                        assert(g.contacts@.take(m as int) =~= g.contacts@);
                        assert(pairs.take(i as int + 1).drop_last() =~= pairs.take(i as int));
                        assert(pair_constraints(pairs[i as int]) =~= g.contacts@.map_values(
                            |c: C| Constraint::RBRB(ba, bb, c),
                        ));
                        assert(out@ =~= old(out)@ + all_constraints(pairs.take(i as int + 1)));
                    }
                },
                PairwiseDetector::Unsupported => {
                    proof {
                        assert(pairs.take(i as int + 1).drop_last() =~= pairs.take(i as int));
                        assert(pair_constraints(pairs[i as int]) =~= Seq::<Constraint<C>>::empty());
                        assert(out@ =~= old(out)@ + all_constraints(pairs.take(i as int + 1)));
                    }
                },
            }
            i += 1;
        }
        proof {
            assert(self.broad_phase.pairs@.take(n as int) =~= self.broad_phase.pairs@);
        }
    }

    /// Handles a body-activated signal: wakes the body's leaf and re-emits
    /// the constraints of every cached pair involving it, in cache order, so
    /// downstream components can rebuild their state for the woken island.
    pub fn activate(&mut self, id: usize, out: &mut Vec<Constraint<C>>)
        requires
            old(self).wf(),
        ensures
            final(self).wf(),
            final(self).update_bf == old(self).update_bf,
            final(self).broad_phase.dispatcher == old(self).broad_phase.dispatcher,
            final(self).broad_phase.pairs@ == old(self).broad_phase.pairs@,
            final(self).broad_phase.leaves@.len() == old(self).broad_phase.leaves@.len(),
            forall|k: int|
                0 <= k < old(self).broad_phase.leaves@.len() ==> (#[trigger] final(self).broad_phase.leaves@[k]).body == old(self).broad_phase.leaves@[k].body && final(self).broad_phase.leaves@[k].active == (if old(self).broad_phase.leaves@[k].body.id()
                    == id {
                    true
                } else {
                    old(self).broad_phase.leaves@[k].active
                }),
            final(out)@ == old(out)@ + all_constraints(
                pairs_touching(old(self).broad_phase.pairs@, id),
            ),
    {
        self.broad_phase.set_active(id, true);
        let ghost pairs = self.broad_phase.pairs@;
        let n = self.broad_phase.pairs.len();
        let mut i: usize = 0;
        while i < n
            invariant
                i <= n,
                n == self.broad_phase.pairs@.len(),
                self.broad_phase.pairs@ == pairs,
                out@ == old(out)@ + all_constraints(pairs_touching(pairs.take(i as int), id)),
            decreases n - i,
        {
            proof {
                assert(pairs.take(i as int + 1).drop_last() =~= pairs.take(i as int));
            }
            let e = &self.broad_phase.pairs[i];
            let ba = e.body_a;
            let bb = e.body_b;
            if ba.handle() == id || bb.handle() == id {
                let ghost touched = pairs_touching(pairs.take(i as int), id);
                match &e.detector {
                    PairwiseDetector::GG(g) => {
                        let m = g.contacts.len();
                        let mut j: usize = 0;
                        while j < m
                            invariant
                                j <= m,
                                m == g.contacts@.len(),
                                0 <= i < pairs.len(),
                                pairs == self.broad_phase.pairs@,
                                pairs[i as int].body_a == ba,
                                pairs[i as int].body_b == bb,
                                pairs[i as int].detector.contacts() == g.contacts@,
                                out@ == old(out)@ + all_constraints(touched)
                                    + g.contacts@.take(j as int).map_values(
                                    |c: C| Constraint::RBRB(ba, bb, c),
                                ),
                            decreases m - j,
                        {
                            proof {
                                assert(g.contacts@.take(j as int + 1).map_values(
                                    |c: C| Constraint::RBRB(ba, bb, c),
                                ) =~= g.contacts@.take(j as int).map_values(
                                    |c: C| Constraint::RBRB(ba, bb, c),
                                ).push(Constraint::RBRB(ba, bb, g.contacts@[j as int])));
                            }
                            out.push(Constraint::RBRB(ba, bb, g.contacts[j]));
                            proof {
                                assert(out@ =~= old(out)@ + all_constraints(touched)
                                    + g.contacts@.take(j as int + 1).map_values(
                                    |c: C| Constraint::RBRB(ba, bb, c),
                                ));
                            }
                            j += 1;
                        }
                        proof {
                            assert(g.contacts@.take(m as int) =~= g.contacts@);
                            assert(pairs_touching(pairs.take(i as int + 1), id) =~= touched.push(
                                pairs[i as int],
                            ));
                            assert(pair_constraints(pairs[i as int]) =~= g.contacts@.map_values(
                                |c: C| Constraint::RBRB(ba, bb, c),
                            ));
                            assert(touched.push(pairs[i as int]).drop_last() =~= touched);
                            assert(touched.push(pairs[i as int]).last() == pairs[i as int]);
                            assert(all_constraints(touched.push(pairs[i as int])) =~= all_constraints(
                                touched,
                            ) + pair_constraints(pairs[i as int]));
                            assert(out@ =~= old(out)@ + all_constraints(
                                pairs_touching(pairs.take(i as int + 1), id),
                            ));
                        }
                    },
                    PairwiseDetector::Unsupported => {
                        proof {
                            assert(pairs_touching(pairs.take(i as int + 1), id) =~= touched.push(
                                pairs[i as int],
                            ));
                            assert(pair_constraints(pairs[i as int]) =~= Seq::<
                                Constraint<C>,
                            >::empty());
                            assert(touched.push(pairs[i as int]).drop_last() =~= touched);
                            assert(touched.push(pairs[i as int]).last() == pairs[i as int]);
                            assert(all_constraints(touched.push(pairs[i as int])) =~= all_constraints(
                                touched,
                            ) + pair_constraints(pairs[i as int]));
                            assert(out@ =~= old(out)@ + all_constraints(
                                pairs_touching(pairs.take(i as int + 1), id),
                            ));
                        }
                    },
                }
            } else {
                proof {
                    assert(pairs_touching(pairs.take(i as int + 1), id) =~= pairs_touching(
                        pairs.take(i as int),
                        id,
                    ));
                }
            }
            i += 1;
        }
        proof {
            assert(pairs.take(n as int) =~= pairs);
        }
    }

    /// Handles a body-deactivated signal: puts the body's leaf to sleep.  The
    /// cache keeps the sleeping body's pairs and their manifolds, so waking
    /// re-emits them unchanged.
    pub fn deactivate(&mut self, id: usize)
        requires
            old(self).wf(),
        ensures
            final(self).wf(),
            final(self).update_bf == old(self).update_bf,
            final(self).broad_phase.dispatcher == old(self).broad_phase.dispatcher,
            final(self).broad_phase.pairs@ == old(self).broad_phase.pairs@,
            final(self).broad_phase.leaves@.len() == old(self).broad_phase.leaves@.len(),
            forall|k: int|
                0 <= k < old(self).broad_phase.leaves@.len() ==> (#[trigger] final(self).broad_phase.leaves@[k]).body == old(self).broad_phase.leaves@[k].body && final(self).broad_phase.leaves@[k].active == (if old(self).broad_phase.leaves@[k].body.id()
                    == id {
                    false
                } else {
                    old(self).broad_phase.leaves@[k].active
                }),
    {
        self.broad_phase.set_active(id, false);
    }

    /// Assembles the ray-query result from the broad-phase candidates (the
    /// bodies whose fat AABB the ray crossed, in tree order) and the caller's
    /// exact per-shape casts, `casts[i]` being the parametric distance at
    /// which the ray hits `candidates[i]`'s shape, if it does.  Appends each
    /// hit body with its distance to `out`, in candidate order.  A soft-body
    /// candidate is a fatal failure in this query (unlike the dispatcher,
    /// which silently skips soft pairs), so candidates must all be rigid.
    pub fn interferences_with_ray<N: Copy>(
        &self,
        candidates: &Vec<Body>,
        casts: &Vec<Option<N>>,
        out: &mut Vec<(Body, N)>,
    )
        requires
            candidates@.len() == casts@.len(),
            forall|i: int| 0 <= i < candidates@.len() ==> (#[trigger] candidates@[i]).is_rigid(),
        ensures
            final(out)@ == old(out)@ + ray_hits(candidates@, casts@),
    {
        let n = candidates.len();
        let mut i: usize = 0;
        while i < n
            invariant
                i <= n,
                n == candidates@.len(),
                n == casts@.len(),
                out@ == old(out)@ + ray_hits(candidates@.take(i as int), casts@.take(i as int)),
            decreases n - i,
        {
            proof {
                assert(candidates@.take(i as int + 1).drop_last() =~= candidates@.take(i as int));
                assert(casts@.take(i as int + 1).drop_last() =~= casts@.take(i as int));
            }
            match casts[i] {
                Some(t) => {
                    out.push((candidates[i], t));
                    proof {
                        assert(out@ =~= old(out)@ + ray_hits(
                            candidates@.take(i as int + 1),
                            casts@.take(i as int + 1),
                        ));
                    }
                },
                None => {
                    proof {
                        assert(out@ =~= old(out)@ + ray_hits(
                            candidates@.take(i as int + 1),
                            casts@.take(i as int + 1),
                        ));
                    }
                },
            }
            i += 1;
        }
        proof {
            assert(candidates@.take(n as int) =~= candidates@);
            assert(casts@.take(n as int) =~= casts@);
        }
    }

    /// Where the detector runs in the pipeline: after the integrators, before
    /// the island manager and the solver.
    pub fn priority(&self) -> (r: u64)
        ensures
            r == BODIES_BODIES_PRIORITY,
    {
        50
    }
}

/// Static bodies never accumulate impulse from each other: every constraint a
/// well-formed cache emits involves at least one body that can move, because
/// the dispatcher filters static-static pairs before they are cached.
pub proof fn lemma_emitted_constraints_have_movable_body<C>(pairs: Seq<PairEntry<C>>)
    requires
        forall|k: int| 0 <= k < pairs.len() ==> crate::broad_phase::pair_ok(#[trigger] pairs[k]),
    ensures
        forall|k: int|
            0 <= k < all_constraints(pairs).len() ==> (#[trigger] all_constraints(
                pairs,
            )[k]).has_movable_body(),
    decreases pairs.len(),
{
    if pairs.len() > 0 {
        lemma_emitted_constraints_have_movable_body(pairs.drop_last());
        let rec = all_constraints(pairs.drop_last());
        let e = pairs.last();
        assert forall|k: int| 0 <= k < all_constraints(pairs).len() implies (
        #[trigger] all_constraints(pairs)[k]).has_movable_body() by {
            if k < rec.len() {
                assert(all_constraints(pairs)[k] == rec[k]);
            } else {
                assert(all_constraints(pairs)[k] == pair_constraints(e)[k - rec.len()]);
                assert(crate::broad_phase::pair_ok(pairs[pairs.len() - 1]));
            }
        }
    }
}

/// Determinism: the step's outputs are functions of the cache state and the
/// query inputs alone.  Each executable function's contract pins its result
/// to one of these specification functions, so identical states and call
/// sequences yield identical refresh targets, constraint lists and ray
/// results.
pub proof fn lemma_step_deterministic<C, N>(
    pairs_a: Seq<PairEntry<C>>,
    pairs_b: Seq<PairEntry<C>>,
    candidates_a: Seq<Body>,
    candidates_b: Seq<Body>,
    casts_a: Seq<Option<N>>,
    casts_b: Seq<Option<N>>,
)
    requires
        pairs_a == pairs_b,
        candidates_a == candidates_b,
        casts_a == casts_b,
    ensures
        gg_pair_ids(pairs_a) == gg_pair_ids(pairs_b),
        all_constraints(pairs_a) == all_constraints(pairs_b),
        ray_hits(candidates_a, casts_a) == ray_hits(candidates_b, casts_b),
{
}

/// Whether some candidate's direct shape cast accounts for the reported hit
/// `p`: the candidate is `p`'s body and its cast returned exactly `p`'s
/// parametric distance.
pub open spec fn hit_witnessed<N>(candidates: Seq<Body>, casts: Seq<Option<N>>, p: (Body, N)) -> bool {
    exists|i: int| 0 <= i < candidates.len() && candidates[i] == p.0 && casts[i] == Some(p.1)
}

/// Ray-cast consistency: a hit reported by the broad-phase query carries
/// exactly the parametric distance of the direct cast against that body's
/// shape, and every candidate whose shape the ray hits is reported.
pub proof fn lemma_ray_cast_consistency<N>(candidates: Seq<Body>, casts: Seq<Option<N>>)
    requires
        candidates.len() == casts.len(),
    ensures
        forall|k: int|
            0 <= k < ray_hits(candidates, casts).len() ==> hit_witnessed(
                candidates,
                casts,
                #[trigger] ray_hits(candidates, casts)[k],
            ),
        forall|i: int|
            0 <= i < candidates.len() && (#[trigger] casts[i]) is Some ==> exists|k: int|
                0 <= k < ray_hits(candidates, casts).len() && candidates[i] == ray_hits(
                    candidates,
                    casts,
                )[k].0 && casts[i] == Some(ray_hits(candidates, casts)[k].1),
    decreases candidates.len(),
{
    if candidates.len() > 0 {
        let cs = candidates.drop_last();
        let ts = casts.drop_last();
        lemma_ray_cast_consistency(cs, ts);
        let h = ray_hits(candidates, casts);
        let hr = ray_hits(cs, ts);
        assert forall|k: int| 0 <= k < h.len() implies hit_witnessed(
            candidates,
            casts,
            #[trigger] h[k],
        ) by {
            if k < hr.len() {
                assert(h[k] == hr[k]);
                assert(hit_witnessed(cs, ts, hr[k]));
                let i = choose|i: int|
                    0 <= i < cs.len() && cs[i] == hr[k].0 && ts[i] == Some(hr[k].1);
                assert(candidates[i] == h[k].0 && casts[i] == Some(h[k].1));
            } else {
                let i = candidates.len() - 1;
                assert(candidates[i] == h[k].0 && casts[i] == Some(h[k].1));
            }
        }
        assert forall|i: int| 0 <= i < candidates.len() && (#[trigger] casts[i]) is Some
            implies exists|k: int|
            0 <= k < h.len() && candidates[i] == h[k].0 && casts[i] == Some(h[k].1) by {
            if i < candidates.len() - 1 {
                let k = choose|k: int|
                    0 <= k < hr.len() && cs[i] == hr[k].0 && ts[i] == Some(hr[k].1);
                assert(h[k] == hr[k]);
                assert(candidates[i] == h[k].0 && casts[i] == Some(h[k].1));
            } else {
                let k = h.len() - 1;
                assert(candidates[i] == h[k].0 && casts[i] == Some(h[k].1));
            }
        }
    }
}

} // verus!
