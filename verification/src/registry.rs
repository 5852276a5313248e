//! The route registry: the metadata index that maps each active route id to
//! its polling interval and records which intervals already have a control
//! channel (and so a running scheduler). It computes the diff between a
//! freshly fetched route set and what is currently scheduled; the caller
//! owns the channels themselves and performs the sends the plan asks for.
use vstd::prelude::*;

use crate::route::Route;
use crate::route::RouteV;

verus! {

/// One registry entry: a route id bound to the interval whose scheduler
/// owns it.
pub struct RouteBinding {
    pub id: String,
    pub interval: i32,
}

impl Clone for RouteBinding {
    fn clone(&self) -> (r: Self)
        ensures
            r == *self,
    {
        let r = RouteBinding { id: self.id.clone(), interval: self.interval };
        proof {
            assert(r.id == self.id);
        }
        r
    }
}

/// The interval bound to `id` in the binding list, first match wins.
pub open spec fn lookup(s: Seq<RouteBinding>, id: Seq<char>) -> Option<i32>
    decreases s.len(),
{
    if s.len() == 0 {
        None
    } else if s[0].id@ == id {
        Some(s[0].interval)
    } else {
        lookup(s.drop_first(), id)
    }
}

/// No two bindings share an id.
pub open spec fn ids_unique(s: Seq<RouteBinding>) -> bool {
    forall|i: int, j: int| 0 <= i < j < s.len() ==> s[i].id@ != s[j].id@
}

/// The mathematical image of a list of routes.
pub open spec fn route_views(s: Seq<Route>) -> Seq<RouteV> {
    s.map_values(|x: Route| x@)
}

/// Some fetched route carries this id.
pub open spec fn fetched_has(f: Seq<Route>, id: Seq<char>) -> bool {
    exists|i: int| 0 <= i < f.len() && f[i].id@ == id
}

/// The fetched routes that are not yet registered, in fetch order.
pub open spec fn spec_new_routes(f: Seq<Route>, known: Seq<RouteBinding>) -> Seq<RouteV>
    decreases f.len(),
{
    if f.len() == 0 {
        Seq::empty()
    } else {
        let rest = spec_new_routes(f.drop_last(), known);
        if lookup(known, f.last().id@) is Some {
            rest
        } else {
            rest.push(f.last()@)
        }
    }
}

/// The registered bindings whose route has disappeared from the fetch,
/// in registry order.
pub open spec fn spec_removals(known: Seq<RouteBinding>, f: Seq<Route>) -> Seq<RouteBinding>
    decreases known.len(),
{
    if known.len() == 0 {
        Seq::empty()
    } else {
        let rest = spec_removals(known.drop_last(), f);
        if fetched_has(f, known.last().id@) {
            rest
        } else {
            rest.push(known.last())
        }
    }
}

/// The registered bindings whose route is still fetched, in registry order.
pub open spec fn spec_kept(known: Seq<RouteBinding>, f: Seq<Route>) -> Seq<RouteBinding>
    decreases known.len(),
{
    if known.len() == 0 {
        Seq::empty()
    } else {
        let rest = spec_kept(known.drop_last(), f);
        if fetched_has(f, known.last().id@) {
            rest.push(known.last())
        } else {
            rest
        }
    }
}

/// The interval set after one control-channel request: unchanged when a
/// channel for `interval` already exists, extended by it otherwise.
pub open spec fn spec_channel_intervals(ivs: Seq<i32>, interval: i32) -> Seq<i32> {
    if ivs.contains(interval) {
        ivs
    } else {
        ivs.push(interval)
    }
}

/// Taking images commutes with appending one route.
pub(crate) proof fn lemma_route_views_push(s: Seq<Route>, x: Route)
    ensures
        route_views(s.push(x)) == route_views(s).push(x@),
{
    assert(route_views(s.push(x)) =~= route_views(s).push(x@));
}

/// Appending a binding changes a lookup only where no earlier binding
/// already answered for that id.
proof fn lemma_lookup_push(s: Seq<RouteBinding>, b: RouteBinding, id: Seq<char>)
    ensures
        lookup(s.push(b), id) == (if lookup(s, id) is Some {
            lookup(s, id)
        } else if b.id@ == id {
            Some(b.interval)
        } else {
            None
        }),
    decreases s.len(),
{
    if s.len() == 0 {
        assert(s.push(b)[0] == b);
        assert(s.push(b).drop_first() =~= Seq::<RouteBinding>::empty());
        assert(lookup(Seq::<RouteBinding>::empty(), id) is None);
    } else {
        assert(s.push(b)[0] == s[0]);
        assert(s.push(b).drop_first() =~= s.drop_first().push(b));
        assert(forall|i: int| 1 <= i < s.len() ==> #[trigger] s[i] == s.drop_first()[i - 1]);
        lemma_lookup_push(s.drop_first(), b, id);
    }
}

/// A lookup misses exactly when no binding carries the id.
proof fn lemma_lookup_none(s: Seq<RouteBinding>, id: Seq<char>)
    ensures
        (lookup(s, id) is None) <==> (forall|i: int| 0 <= i < s.len() ==> s[i].id@ != id),
    decreases s.len(),
{
    if s.len() == 0 {
    } else {
        lemma_lookup_none(s.drop_first(), id);
        assert(forall|i: int| 1 <= i < s.len() ==> #[trigger] s[i] == s.drop_first()[i - 1]);
        assert(forall|i: int|
            0 <= i < s.drop_first().len() ==> #[trigger] s.drop_first()[i] == s[i + 1]);
    }
}

/// Under unique ids, a lookup answers with the interval of the one binding
/// that carries the id.
proof fn lemma_lookup_at(s: Seq<RouteBinding>, i: int)
    requires
        ids_unique(s),
        0 <= i < s.len(),
    ensures
        lookup(s, s[i].id@) == Some(s[i].interval),
    decreases s.len(),
{
    if i == 0 {
    } else {
        assert(s[0].id@ != s[i].id@);
        assert(ids_unique(s.drop_first())) by {
            assert(forall|a: int, b: int|
                0 <= a < b < s.drop_first().len() ==> s.drop_first()[a] == s[a + 1]
                    && s.drop_first()[b] == s[b + 1]);
        }
        assert(s.drop_first()[i - 1] == s[i]);
        lemma_lookup_at(s.drop_first(), i - 1);
    }
}

/// What survives the diff: membership, intervals and uniqueness of the
/// kept bindings, all in terms of the old state and the fetched set.
proof fn lemma_kept_props(s: Seq<RouteBinding>, f: Seq<Route>)
    requires
        ids_unique(s),
    ensures
        ids_unique(spec_kept(s, f)),
        forall|id: Seq<char>| #![trigger lookup(spec_kept(s, f), id)]
            lookup(spec_kept(s, f), id) == (if fetched_has(f, id) {
                lookup(s, id)
            } else {
                None::<i32>
            }),
        forall|k: int| #![trigger spec_kept(s, f)[k]]
            0 <= k < spec_kept(s, f).len() ==> fetched_has(f, spec_kept(s, f)[k].id@),
    decreases s.len(),
{
    if s.len() == 0 {
    } else {
        let pre = s.drop_last();
        let b = s.last();
        assert(ids_unique(pre)) by {
            assert(forall|a: int, b2: int|
                0 <= a < b2 < pre.len() ==> pre[a] == s[a] && pre[b2] == s[b2]);
        }
        lemma_kept_props(pre, f);
        assert(s =~= pre.push(b));
        assert forall|id: Seq<char>| true implies #[trigger] lookup(s, id) == (if lookup(
            pre,
            id,
        ) is Some {
            lookup(pre, id)
        } else if b.id@ == id {
            Some(b.interval)
        } else {
            None::<i32>
        }) by {
            lemma_lookup_push(pre, b, id);
        }
        if fetched_has(f, b.id@) {
            let kpre = spec_kept(pre, f);
            assert(spec_kept(s, f) == kpre.push(b));
            assert(lookup(kpre, b.id@) is None) by {
                assert(forall|i: int| 0 <= i < pre.len() ==> pre[i].id@ != b.id@);
                lemma_lookup_none(pre, b.id@);
                if lookup(kpre, b.id@) is Some {
                    lemma_lookup_none(kpre, b.id@);
                }
            }
            assert(ids_unique(kpre.push(b))) by {
                lemma_lookup_none(kpre, b.id@);
                assert(forall|k: int|
                    0 <= k < kpre.len() ==> #[trigger] kpre.push(b)[k] == kpre[k]);
            }
            assert forall|id: Seq<char>| true implies #[trigger] lookup(kpre.push(b), id) == (
            if fetched_has(f, id) {
                lookup(s, id)
            } else {
                None::<i32>
            }) by {
                lemma_lookup_push(kpre, b, id);
                if id == b.id@ {
                    assert(lookup(pre, id) is None) by {
                        assert(forall|i: int| 0 <= i < pre.len() ==> pre[i].id@ != b.id@);
                        lemma_lookup_none(pre, b.id@);
                    }
                }
            }
        } else {
            assert(spec_kept(s, f) == spec_kept(pre, f));
            assert forall|id: Seq<char>| true implies #[trigger] lookup(spec_kept(s, f), id)
                == (if fetched_has(f, id) {
                lookup(s, id)
            } else {
                None::<i32>
            }) by {
                if id == b.id@ {
                    assert(!fetched_has(f, id));
                }
            }
        }
    }
}

/// Every removal is a stale binding, and every stale binding is removed:
/// a binding leaves the registry exactly when its id is no longer fetched.
proof fn lemma_removals_props(s: Seq<RouteBinding>, f: Seq<Route>)
    requires
        ids_unique(s),
    ensures
        forall|k: int| #![trigger spec_removals(s, f)[k]]
            0 <= k < spec_removals(s, f).len() ==> {
                &&& !fetched_has(f, spec_removals(s, f)[k].id@)
                &&& lookup(s, spec_removals(s, f)[k].id@) == Some(
                    spec_removals(s, f)[k].interval,
                )
            },
        forall|i: int| #![trigger s[i]]
            0 <= i < s.len() && !fetched_has(f, s[i].id@) ==> exists|k: int|
                0 <= k < spec_removals(s, f).len() && spec_removals(s, f)[k] == s[i],
    decreases s.len(),
{
    if s.len() == 0 {
    } else {
        let pre = s.drop_last();
        let b = s.last();
        assert(ids_unique(pre)) by {
            assert(forall|a: int, b2: int|
                0 <= a < b2 < pre.len() ==> pre[a] == s[a] && pre[b2] == s[b2]);
        }
        lemma_removals_props(pre, f);
        assert(s =~= pre.push(b));
        assert forall|id: Seq<char>| lookup(pre, id) is Some implies lookup(s, id) == lookup(
            pre,
            id,
        ) by {
            lemma_lookup_push(pre, b, id);
        }
        if !fetched_has(f, b.id@) {
            assert(lookup(pre, b.id@) is None) by {
                assert(forall|i: int| 0 <= i < pre.len() ==> pre[i].id@ != b.id@);
                lemma_lookup_none(pre, b.id@);
            }
            assert(lookup(s, b.id@) == Some(b.interval)) by {
                lemma_lookup_push(pre, b, b.id@);
            }
            let r = spec_removals(pre, f).push(b);
            assert(spec_removals(s, f) == r);
            assert(forall|k: int|
                0 <= k < spec_removals(pre, f).len() ==> #[trigger] r[k] == spec_removals(
                    pre,
                    f,
                )[k]);
            assert forall|i: int|
                0 <= i < s.len() && !fetched_has(f, #[trigger] s[i].id@) implies exists|k: int|
                0 <= k < r.len() && r[k] == s[i] by {
                if i < pre.len() {
                    assert(s[i] == pre[i]);
                    let k0 = choose|k: int|
                        0 <= k < spec_removals(pre, f).len() && spec_removals(pre, f)[k]
                            == pre[i];
                    assert(r[k0] == s[i]);
                } else {
                    assert(s[i] == b);
                    assert(r[r.len() - 1] == b);
                }
            }
        } else {
            assert(spec_removals(s, f) == spec_removals(pre, f));
            assert forall|i: int|
                0 <= i < s.len() && !fetched_has(f, #[trigger] s[i].id@) implies exists|k: int|
                0 <= k < spec_removals(s, f).len() && spec_removals(s, f)[k] == s[i] by {
                assert(i < pre.len() && s[i] == pre[i]);
            }
        }
    }
}

/// The new-routes list holds exactly the fetched routes whose id was
/// unknown, each a fetched route's image.
proof fn lemma_new_routes_props(f: Seq<Route>, known: Seq<RouteBinding>)
    ensures
        forall|k: int| #![trigger spec_new_routes(f, known)[k]]
            0 <= k < spec_new_routes(f, known).len() ==> {
                &&& lookup(known, spec_new_routes(f, known)[k].id) is None
                &&& exists|i: int| 0 <= i < f.len() && f[i]@ == spec_new_routes(f, known)[k]
            },
        forall|i: int| #![trigger f[i]]
            0 <= i < f.len() && lookup(known, f[i].id@) is None ==> exists|k: int|
                0 <= k < spec_new_routes(f, known).len() && spec_new_routes(f, known)[k]
                    == f[i]@,
    decreases f.len(),
{
    if f.len() == 0 {
    } else {
        let pre = f.drop_last();
        let r = f.last();
        lemma_new_routes_props(pre, known);
        assert(forall|i: int| 0 <= i < pre.len() ==> #[trigger] pre[i] == f[i]);
        let nr = spec_new_routes(f, known);
        let npre = spec_new_routes(pre, known);
        assert forall|i: int|
            0 <= i < f.len() && lookup(known, #[trigger] f[i].id@) is None implies exists|k: int|
            0 <= k < nr.len() && nr[k] == f[i]@ by {
            if i < pre.len() {
                let k0 = choose|k: int| 0 <= k < npre.len() && npre[k] == pre[i]@;
                assert(nr[k0] == f[i]@);
            } else {
                assert(nr[nr.len() - 1] == r@);
            }
        }
    }
}

/// The registry's metadata: which intervals have a live control channel,
/// and which route id is owned by which interval's scheduler.
pub struct Registry {
    pub intervals: Vec<i32>,
    pub routes: Vec<RouteBinding>,
}

impl Registry {
    /// Each id is bound once, and each interval has at most one channel.
    pub open spec fn wf(self) -> bool {
        &&& ids_unique(self.routes@)
        &&& (forall|i: int, j: int|
            0 <= i < j < self.intervals@.len() ==> self.intervals@[i] != self.intervals@[j])
    }

    pub fn new() -> (r: Registry)
        ensures
            r.wf(),
            r.intervals@ == Seq::<i32>::empty(),
            r.routes@ == Seq::<RouteBinding>::empty(),
    {
        Registry { intervals: Vec::new(), routes: Vec::new() }
    }

    /// Whether some binding carries this id.
    fn has_binding(&self, id: &String) -> (r: bool)
        ensures
            r == (lookup(self.routes@, id@) is Some),
    {
        let n = self.routes.len();
        for i in 0..n
            invariant
                n == self.routes.len(),
                forall|k: int| 0 <= k < i ==> self.routes@[k].id@ != id@,
        {
            if self.routes[i].id == *id {
                proof {
                    lemma_lookup_none(self.routes@, id@);
                }
                return true;
            }
        }
        proof {
            lemma_lookup_none(self.routes@, id@);
        }
        false
    }

    /// Computes the diff against a freshly fetched route set: returns the
    /// newly discovered routes (in fetch order) and the stale bindings
    /// (id and owning interval) whose removal the caller must signal to
    /// the owning scheduler; the stale bindings leave the registry.
    /// Already-registered fetched routes are neither returned nor touched.
    pub fn diff(&mut self, fetched: &Vec<Route>) -> (r: (Vec<Route>, Vec<RouteBinding>))
        requires
            old(self).wf(),
        ensures
            final(self).wf(),
            final(self).intervals == old(self).intervals,
            route_views(r.0@) == spec_new_routes(fetched@, old(self).routes@),
            r.1@ == spec_removals(old(self).routes@, fetched@),
            final(self).routes@ == spec_kept(old(self).routes@, fetched@),
    {
        let ghost known = self.routes@;
        let mut fresh: Vec<Route> = Vec::new();
        let fn_ = fetched.len();
        for i in 0..fn_
            invariant
                fn_ == fetched.len(),
                self.routes@ == known,
                self.intervals == old(self).intervals,
                route_views(fresh@) == spec_new_routes(fetched@.take(i as int), known),
        {
            proof {
                assert(fetched@.take(i + 1).drop_last() =~= fetched@.take(i as int));
                assert(fetched@.take(i + 1).last() == fetched@[i as int]);
            }
            if !self.has_binding(&fetched[i].id) {
                let ghost before = fresh@;
                let c = fetched[i].clone();
                let ghost cv = c@;
                fresh.push(c);
                proof {
                    lemma_route_views_push(before, fresh@.last());
                    assert(fresh@.last()@ == cv);
                }
            }
        }
        proof {
            assert(fetched@.take(fetched@.len() as int) =~= fetched@);
        }
        let mut kept: Vec<RouteBinding> = Vec::new();
        let mut removed: Vec<RouteBinding> = Vec::new();
        let rn = self.routes.len();
        for i in 0..rn
            invariant
                rn == self.routes.len(),
                self.routes@ == known,
                self.intervals == old(self).intervals,
                kept@ == spec_kept(self.routes@.take(i as int), fetched@),
                removed@ == spec_removals(self.routes@.take(i as int), fetched@),
        {
            proof {
                assert(self.routes@.take(i + 1).drop_last() =~= self.routes@.take(i as int));
                assert(self.routes@.take(i + 1).last() == self.routes@[i as int]);
            }
            if contains_route_id(fetched, &self.routes[i].id) {
                kept.push(self.routes[i].clone());
            } else {
                removed.push(self.routes[i].clone());
            }
        }
        proof {
            assert(self.routes@.take(self.routes@.len() as int) =~= self.routes@);
            lemma_kept_props(self.routes@, fetched@);
        }
        self.routes = kept;
        (fresh, removed)
    }

    /// Reports whether a control channel for `interval` must be created:
    /// true exactly when none exists yet, in which case the interval is
    /// recorded, so the caller knows to spawn a fresh scheduler for it.
    pub fn control_channel_for(&mut self, interval: i32) -> (created: bool)
        requires
            old(self).wf(),
        ensures
            final(self).wf(),
            final(self).routes == old(self).routes,
            created == !old(self).intervals@.contains(interval),
            final(self).intervals@ == spec_channel_intervals(old(self).intervals@, interval),
    {
        let n = self.intervals.len();
        for i in 0..n
            invariant
                n == self.intervals.len(),
                old(self).wf(),
                self.intervals@ == old(self).intervals@,
                self.routes == old(self).routes,
                forall|k: int| 0 <= k < i ==> self.intervals@[k] != interval,
        {
            if self.intervals[i] == interval {
                return false;
            }
        }
        self.intervals.push(interval);
        true
    }

    /// Records that this route is owned by the scheduler of its own
    /// interval; every route, new or pre-existing at bootstrap, must pass
    /// through here so later diffs recognize it.
    pub fn register(&mut self, route: &Route)
        requires
            old(self).wf(),
        ensures
            final(self).wf(),
            final(self).intervals == old(self).intervals,
            lookup(final(self).routes@, route.id@) == Some(route.interval),
            forall|id: Seq<char>| #![trigger lookup(final(self).routes@, id)]
                id != route.id@ ==> lookup(final(self).routes@, id) == lookup(
                    old(self).routes@,
                    id,
                ),
    {
        let b = RouteBinding { id: route.id.clone(), interval: route.interval };
        let n = self.routes.len();
        for i in 0..n
            invariant
                n == self.routes.len(),
                old(self).wf(),
                self.routes@ == old(self).routes@,
                self.intervals == old(self).intervals,
                b.id@ == route.id@,
                b.interval == route.interval,
                forall|k: int| 0 <= k < i ==> self.routes@[k].id@ != route.id@,
        {
            if self.routes[i].id == route.id {
                let ghost s0 = self.routes@;
                let ghost bv = b;
                self.routes.set(i, b);
                proof {
                    assert(self.routes@ == s0.update(i as int, bv));
                    lemma_update_props(s0, i as int, bv);
                }
                return ;
            }
        }
        let ghost s0 = self.routes@;
        self.routes.push(b);
        proof {
            lemma_lookup_none(s0, route.id@);
            assert forall|id: Seq<char>| true implies #[trigger] lookup(self.routes@, id) == (
            if lookup(s0, id) is Some {
                lookup(s0, id)
            } else if route.id@ == id {
                Some(route.interval)
            } else {
                None::<i32>
            }) by {
                lemma_lookup_push(s0, self.routes@.last(), id);
            }
            assert(ids_unique(self.routes@)) by {
                assert(forall|k: int|
                    0 <= k < s0.len() ==> #[trigger] self.routes@[k] == s0[k]);
            }
        }
    }
}

/// Helper for `register`: replacing the one binding that carries an id
/// answers lookups of that id with the new interval and leaves every
/// other lookup as it was.
proof fn lemma_lookup_update(s: Seq<RouteBinding>, i: int, b: RouteBinding, id: Seq<char>)
    requires
        ids_unique(s),
        0 <= i < s.len(),
        s[i].id@ == b.id@,
    ensures
        lookup(s.update(i, b), id) == (if id == b.id@ {
            Some(b.interval)
        } else {
            lookup(s, id)
        }),
    decreases s.len(),
{
    let t = s.update(i, b);
    if i == 0 {
        assert(t.drop_first() =~= s.drop_first());
        assert(t[0] == b);
    } else {
        assert(t[0] == s[0]);
        assert(ids_unique(s.drop_first())) by {
            assert(forall|a: int, c: int|
                0 <= a < c < s.drop_first().len() ==> s.drop_first()[a] == s[a + 1]
                    && s.drop_first()[c] == s[c + 1]);
        }
        assert(t.drop_first() =~= s.drop_first().update(i - 1, b));
        assert(s.drop_first()[i - 1] == s[i]);
        lemma_lookup_update(s.drop_first(), i - 1, b, id);
        assert(s[0].id@ != b.id@);
    }
}

/// Helper for `register`: updating the one binding that carries an id
/// keeps every other lookup, rebinds that id, and keeps ids unique.
proof fn lemma_update_props(s: Seq<RouteBinding>, i: int, b: RouteBinding)
    requires
        ids_unique(s),
        0 <= i < s.len(),
        s[i].id@ == b.id@,
    ensures
        ids_unique(s.update(i, b)),
        lookup(s.update(i, b), b.id@) == Some(b.interval),
        forall|id: Seq<char>| #![trigger lookup(s.update(i, b), id)]
            id != b.id@ ==> lookup(s.update(i, b), id) == lookup(s, id),
{
    let t = s.update(i, b);
    assert(forall|k: int| 0 <= k < t.len() ==> #[trigger] t[k].id@ == s[k].id@);
    assert forall|id: Seq<char>| true implies #[trigger] lookup(t, id) == (if id == b.id@ {
        Some(b.interval)
    } else {
        lookup(s, id)
    }) by {
        lemma_lookup_update(s, i, b, id);
    }
}

/// The interval set after channels were requested for each new route in
/// turn.
pub open spec fn spec_intervals_after(ivs: Seq<i32>, newr: Seq<RouteV>) -> Seq<i32>
    decreases newr.len(),
{
    if newr.len() == 0 {
        ivs
    } else {
        spec_channel_intervals(spec_intervals_after(ivs, newr.drop_last()), newr.last().interval)
    }
}

/// The intervals whose channel (and scheduler) must be freshly created
/// while admitting the new routes in order: each distinct new interval
/// without a channel, at its first appearance.
pub open spec fn spec_spawns(ivs: Seq<i32>, newr: Seq<RouteV>) -> Seq<i32>
    decreases newr.len(),
{
    if newr.len() == 0 {
        Seq::empty()
    } else {
        let pre = spec_spawns(ivs, newr.drop_last());
        if spec_intervals_after(ivs, newr.drop_last()).contains(newr.last().interval) {
            pre
        } else {
            pre.push(newr.last().interval)
        }
    }
}

/// What one watcher cycle decided: the newly discovered routes (each to be
/// announced to its interval's scheduler and probed once immediately), the
/// stale bindings whose removal must be signalled, and the intervals that
/// need a fresh scheduler spawned.
pub struct WatchPlan {
    pub new_routes: Vec<Route>,
    pub removals: Vec<RouteBinding>,
    pub spawn_intervals: Vec<i32>,
}

impl Registry {
    /// One watcher reconciliation under the registry lock: diffs the
    /// fetched set, then admits every new route — requesting its control
    /// channel (noting the intervals that need a fresh scheduler) and
    /// registering it. Afterwards exactly the fetched ids are registered;
    /// routes that were already registered keep their old binding, even
    /// where the source shows another interval for the same id.
    #[verifier::rlimit(60)]
    pub fn integrate(&mut self, fetched: &Vec<Route>) -> (plan: WatchPlan)
        requires
            old(self).wf(),
        ensures
            final(self).wf(),
            route_views(plan.new_routes@) == spec_new_routes(fetched@, old(self).routes@),
            plan.removals@ == spec_removals(old(self).routes@, fetched@),
            plan.spawn_intervals@ == spec_spawns(
                old(self).intervals@,
                spec_new_routes(fetched@, old(self).routes@),
            ),
            final(self).intervals@ == spec_intervals_after(
                old(self).intervals@,
                spec_new_routes(fetched@, old(self).routes@),
            ),
            forall|id: Seq<char>| #![trigger lookup(final(self).routes@, id)]
                (lookup(final(self).routes@, id) is Some) <==> fetched_has(fetched@, id),
            forall|id: Seq<char>| #![trigger lookup(final(self).routes@, id)]
                (lookup(old(self).routes@, id) is Some && fetched_has(fetched@, id)) ==> lookup(
                    final(self).routes@,
                    id,
                ) == lookup(old(self).routes@, id),
            forall|j: int|
                #![trigger spec_new_routes(fetched@, old(self).routes@)[j]]
                0 <= j < spec_new_routes(fetched@, old(self).routes@).len() && (forall|j2: int|
                    j < j2 < spec_new_routes(fetched@, old(self).routes@).len()
                        ==> spec_new_routes(fetched@, old(self).routes@)[j2].id
                        != spec_new_routes(fetched@, old(self).routes@)[j].id) ==> lookup(
                    final(self).routes@,
                    spec_new_routes(fetched@, old(self).routes@)[j].id,
                ) == Some(spec_new_routes(fetched@, old(self).routes@)[j].interval),
    {
        let ghost known = self.routes@;
        let ghost ivs0 = self.intervals@;
        let (new_routes, removals) = self.diff(fetched);
        let ghost kept = self.routes@;
        let ghost newv = route_views(new_routes@);
        proof {
            lemma_kept_props(known, fetched@);
            lemma_new_routes_props(fetched@, known);
            assert forall|j: int| 0 <= j < newv.len() implies lookup(
                kept,
                #[trigger] newv[j].id,
            ) is None by {
                assert(newv[j] == spec_new_routes(fetched@, known)[j]);
            }
        }
        let mut spawns: Vec<i32> = Vec::new();
        let nn = new_routes.len();
        for k in 0..nn
            invariant
                nn == new_routes.len(),
                newv == route_views(new_routes@),
                newv.len() == nn,
                newv == spec_new_routes(fetched@, known),
                self.wf(),
                self.intervals@ == spec_intervals_after(ivs0, newv.take(k as int)),
                spawns@ == spec_spawns(ivs0, newv.take(k as int)),
                forall|j: int| 0 <= j < newv.len() ==> lookup(kept, #[trigger] newv[j].id) is None,
                forall|id: Seq<char>| #![trigger lookup(self.routes@, id)]
                    (lookup(self.routes@, id) is Some) <==> (lookup(kept, id) is Some || exists|
                        j: int,
                    | 0 <= j < k && newv[j].id == id),
                forall|id: Seq<char>| #![trigger lookup(self.routes@, id)]
                    lookup(kept, id) is Some ==> lookup(self.routes@, id) == lookup(kept, id),
                forall|j: int| #![trigger newv[j].id]
                    0 <= j < k && (forall|j2: int| j < j2 < k ==> newv[j2].id != newv[j].id)
                        ==> lookup(self.routes@, newv[j].id) == Some(newv[j].interval),
        {
            proof {
                assert(newv.take(k + 1).drop_last() =~= newv.take(k as int));
                assert(newv.take(k + 1).last() == newv[k as int]);
                assert(newv[k as int] == new_routes@[k as int]@);
            }
            let interval = new_routes[k].interval;
            let created = self.control_channel_for(interval);
            if created {
                spawns.push(interval);
            }
            let ghost before = self.routes@;
            self.register(&new_routes[k]);
            proof {
                assert forall|id: Seq<char>| true implies ((#[trigger] lookup(
                    self.routes@,
                    id,
                ) is Some) <==> (lookup(kept, id) is Some || exists|j: int|
                    0 <= j < k + 1 && newv[j].id == id)) by {
                    if id == newv[k as int].id {
                        assert(newv[k as int].id == id);
                    } else {
                        assert(lookup(self.routes@, id) == lookup(before, id));
                        if exists|j: int| 0 <= j < k + 1 && newv[j].id == id {
                            let j0 = choose|j: int| 0 <= j < k + 1 && newv[j].id == id;
                            assert(0 <= j0 < k && newv[j0].id == id);
                        }
                    }
                }
                assert forall|j: int|
                    0 <= j < k + 1 && (forall|j2: int|
                        j < j2 < k + 1 ==> newv[j2].id != #[trigger] newv[j].id) implies lookup(
                    self.routes@,
                    newv[j].id,
                ) == Some(newv[j].interval) by {
                    if j == k {
                    } else {
                        assert(newv[k as int].id != newv[j].id);
                        assert(forall|j2: int| j < j2 < k ==> newv[j2].id != newv[j].id);
                        assert(lookup(before, newv[j].id) == Some(newv[j].interval));
                        assert(lookup(self.routes@, newv[j].id) == lookup(before, newv[j].id));
                    }
                }
            }
        }
        proof {
            assert(newv.take(nn as int) =~= newv);
            assert forall|id: Seq<char>| true implies ((#[trigger] lookup(
                self.routes@,
                id,
            ) is Some) <==> fetched_has(fetched@, id)) by {
                if lookup(self.routes@, id) is Some {
                    if lookup(kept, id) is Some {
                    } else {
                        let j0 = choose|j: int| 0 <= j < newv.len() && newv[j].id == id;
                        let i0 = choose|i: int|
                            0 <= i < fetched@.len() && fetched@[i]@ == newv[j0];
                        assert(fetched@[i0].id@ == id);
                    }
                } else {
                    if fetched_has(fetched@, id) {
                        let i0 = choose|i: int| 0 <= i < fetched@.len() && fetched@[i].id@ == id;
                        if lookup(known, id) is Some {
                            assert(lookup(kept, id) == lookup(known, id));
                        } else {
                            assert(exists|j: int|
                                0 <= j < newv.len() && newv[j] == fetched@[i0]@);
                            let j0 = choose|j: int|
                                0 <= j < newv.len() && newv[j] == fetched@[i0]@;
                            assert(newv[j0].id == id);
                        }
                    }
                }
            }
        }
        WatchPlan { new_routes, removals, spawn_intervals: spawns }
    }
}

/// Diffing an unchanged route set is idempotent: once a diff's side
/// effects have been applied, diffing the same fetched set again finds
/// nothing new, removes nothing, and leaves the registry as it was; and
/// when the first diff already found nothing new, both calls return an
/// empty new-routes list.
pub proof fn lemma_diff_idempotent(known: Seq<RouteBinding>, f: Seq<Route>)
    requires
        ids_unique(known),
    ensures
        spec_kept(spec_kept(known, f), f) == spec_kept(known, f),
        spec_removals(spec_kept(known, f), f) == Seq::<RouteBinding>::empty(),
        spec_new_routes(f, known) == Seq::<RouteV>::empty() ==> spec_new_routes(
            f,
            spec_kept(known, f),
        ) == Seq::<RouteV>::empty(),
{
    lemma_kept_props(known, f);
    let kept = spec_kept(known, f);
    lemma_kept_fixpoint(kept, f);
    if spec_new_routes(f, known) == Seq::<RouteV>::empty() {
        lemma_new_routes_props(f, known);
        lemma_new_routes_props(f, kept);
        assert forall|i: int| 0 <= i < f.len() implies lookup(
            kept,
            #[trigger] f[i].id@,
        ) is Some by {
            assert(fetched_has(f, f[i].id@));
            if lookup(known, f[i].id@) is None {
                assert(exists|k: int|
                    0 <= k < spec_new_routes(f, known).len() && spec_new_routes(f, known)[k]
                        == f[i]@);
            }
        }
        let nr = spec_new_routes(f, kept);
        if nr.len() > 0 {
            assert(lookup(kept, nr[0].id) is None && exists|i: int|
                0 <= i < f.len() && f[i]@ == nr[0]);
            let i0 = choose|i: int| 0 <= i < f.len() && f[i]@ == nr[0];
            assert(lookup(kept, f[i0].id@) is Some);
            assert(false);
        }
        assert(nr =~= Seq::<RouteV>::empty());
    }
}

/// A binding list all of whose ids are still fetched is left whole by the
/// diff: everything is kept and nothing is removed.
proof fn lemma_kept_fixpoint(s: Seq<RouteBinding>, f: Seq<Route>)
    requires
        forall|k: int| 0 <= k < s.len() ==> fetched_has(f, #[trigger] s[k].id@),
    ensures
        spec_kept(s, f) == s,
        spec_removals(s, f) == Seq::<RouteBinding>::empty(),
    decreases s.len(),
{
    if s.len() == 0 {
        assert(spec_kept(s, f) =~= s);
    } else {
        let pre = s.drop_last();
        assert(forall|k: int| 0 <= k < pre.len() ==> #[trigger] pre[k] == s[k]);
        lemma_kept_fixpoint(pre, f);
        assert(fetched_has(f, s.last().id@));
        assert(spec_kept(s, f) =~= s);
    }
}

/// A route removed from the source is evicted: its id no longer resolves
/// after the diff, and the removal list carries its binding — the id
/// together with the interval whose scheduler owned it — so the removal
/// message reaches the correct interval channel.
pub proof fn lemma_removed_route_evicted(known: Seq<RouteBinding>, f: Seq<Route>, i: int)
    requires
        ids_unique(known),
        0 <= i < known.len(),
        !fetched_has(f, known[i].id@),
    ensures
        lookup(spec_kept(known, f), known[i].id@) is None,
        lookup(known, known[i].id@) == Some(known[i].interval),
        exists|k: int|
            0 <= k < spec_removals(known, f).len() && spec_removals(known, f)[k] == known[i],
{
    lemma_kept_props(known, f);
    lemma_removals_props(known, f);
    lemma_lookup_at(known, i);
}

/// Routes sharing a monitoring interval share one control channel: the
/// first request for an interval creates its channel, and any further
/// request for the same interval finds it and creates nothing.
pub proof fn lemma_one_channel_per_interval(ivs: Seq<i32>, interval: i32)
    ensures
        spec_channel_intervals(ivs, interval).contains(interval),
        spec_channel_intervals(spec_channel_intervals(ivs, interval), interval)
            == spec_channel_intervals(ivs, interval),
{
    if !ivs.contains(interval) {
        assert(ivs.push(interval)[ivs.len() as int] == interval);
    }
}

/// Whether some fetched route carries this id.
fn contains_route_id(fetched: &Vec<Route>, id: &String) -> (r: bool)
    ensures
        r == fetched_has(fetched@, id@),
{
    let n = fetched.len();
    for i in 0..n
        invariant
            n == fetched.len(),
            forall|k: int| 0 <= k < i ==> fetched@[k].id@ != id@,
    {
        if fetched[i].id == *id {
            return true;
        }
    }
    false
}

} // verus!
