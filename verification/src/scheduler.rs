//! The per-interval scheduler's state machine. One scheduler task owns the
//! routes assigned to its interval in a private map touched by nobody else;
//! at each tick boundary it drains its control channel, applying each
//! message here, and then probes a snapshot of everything it owns.
use vstd::prelude::*;

use crate::registry::lemma_route_views_push;
use crate::registry::route_views;
use crate::route::Route;
use crate::route::RouteV;

verus! {

/// One message on an interval's control channel, delivered in send order
/// and drained at tick boundaries.
pub enum ControlMessage {
    /// Insert the route into the private map, overwriting any entry with
    /// the same id.
    AddRoute(Route),
    /// Delete the route with this id if present; absence is not an error.
    RemoveRoute(String),
    /// Leave the loop and terminate the scheduler.
    Shutdown,
}

/// The route stored under `id` in the private map, first match wins.
pub open spec fn owned_lookup(s: Seq<Route>, id: Seq<char>) -> Option<RouteV>
    decreases s.len(),
{
    if s.len() == 0 {
        None
    } else if s[0].id@ == id {
        Some(s[0]@)
    } else {
        owned_lookup(s.drop_first(), id)
    }
}

/// No two owned routes share an id.
pub open spec fn owned_ids_unique(s: Seq<Route>) -> bool {
    forall|i: int, j: int| 0 <= i < j < s.len() ==> s[i].id@ != s[j].id@
}

/// An owned-route lookup misses exactly when no owned route carries the id.
proof fn lemma_owned_lookup_none(s: Seq<Route>, id: Seq<char>)
    ensures
        (owned_lookup(s, id) is None) <==> (forall|i: int| 0 <= i < s.len() ==> s[i].id@ != id),
    decreases s.len(),
{
    if s.len() == 0 {
    } else {
        lemma_owned_lookup_none(s.drop_first(), id);
        assert(forall|i: int| 1 <= i < s.len() ==> #[trigger] s[i] == s.drop_first()[i - 1]);
        assert(forall|i: int|
            0 <= i < s.drop_first().len() ==> #[trigger] s.drop_first()[i] == s[i + 1]);
    }
}

/// Replacing the one route that carries an id rebinds that id and leaves
/// every other lookup as it was.
proof fn lemma_owned_lookup_update(s: Seq<Route>, i: int, x: Route, id: Seq<char>)
    requires
        owned_ids_unique(s),
        0 <= i < s.len(),
        s[i].id@ == x.id@,
    ensures
        owned_lookup(s.update(i, x), id) == (if id == x.id@ {
            Some(x@)
        } else {
            owned_lookup(s, id)
        }),
    decreases s.len(),
{
    let t = s.update(i, x);
    if i == 0 {
        assert(t.drop_first() =~= s.drop_first());
        assert(t[0] == x);
    } else {
        assert(t[0] == s[0]);
        assert(owned_ids_unique(s.drop_first())) by {
            assert(forall|a: int, c: int|
                0 <= a < c < s.drop_first().len() ==> s.drop_first()[a] == s[a + 1]
                    && s.drop_first()[c] == s[c + 1]);
        }
        assert(t.drop_first() =~= s.drop_first().update(i - 1, x));
        assert(s.drop_first()[i - 1] == s[i]);
        lemma_owned_lookup_update(s.drop_first(), i - 1, x, id);
        assert(s[0].id@ != x.id@);
    }
}

/// Appending a route changes a lookup only where no earlier route already
/// answered for that id.
proof fn lemma_owned_lookup_push(s: Seq<Route>, x: Route, id: Seq<char>)
    ensures
        owned_lookup(s.push(x), id) == (if owned_lookup(s, id) is Some {
            owned_lookup(s, id)
        } else if x.id@ == id {
            Some(x@)
        } else {
            None
        }),
    decreases s.len(),
{
    if s.len() == 0 {
        assert(s.push(x)[0] == x);
        assert(s.push(x).drop_first() =~= Seq::<Route>::empty());
        assert(owned_lookup(Seq::<Route>::empty(), id) is None);
    } else {
        assert(s.push(x)[0] == s[0]);
        assert(s.push(x).drop_first() =~= s.drop_first().push(x));
        lemma_owned_lookup_push(s.drop_first(), x, id);
    }
}

/// Deleting the route at one position removes its id and leaves every
/// other lookup as it was.
proof fn lemma_owned_lookup_remove(s: Seq<Route>, i: int, id: Seq<char>)
    requires
        owned_ids_unique(s),
        0 <= i < s.len(),
    ensures
        owned_lookup(s.remove(i), id) == (if id == s[i].id@ {
            None
        } else {
            owned_lookup(s, id)
        }),
    decreases s.len(),
{
    let t = s.remove(i);
    if i == 0 {
        assert(t =~= s.drop_first());
        lemma_owned_lookup_none(s.drop_first(), id);
        if id == s[0].id@ {
            assert(forall|k: int|
                0 <= k < s.drop_first().len() ==> #[trigger] s.drop_first()[k].id@ == s[k
                    + 1].id@ && s[k + 1].id@ != s[0].id@);
        }
    } else {
        assert(t[0] == s[0]);
        assert(owned_ids_unique(s.drop_first())) by {
            assert(forall|a: int, c: int|
                0 <= a < c < s.drop_first().len() ==> s.drop_first()[a] == s[a + 1]
                    && s.drop_first()[c] == s[c + 1]);
        }
        assert(t.drop_first() =~= s.drop_first().remove(i - 1));
        assert(s.drop_first()[i - 1] == s[i]);
        lemma_owned_lookup_remove(s.drop_first(), i - 1, id);
    }
}

/// A scheduler whose private map no longer resolves an id owns no route
/// with that id: once a RemoveRoute message for the id has been drained,
/// no tick of this scheduler probes it again.
pub proof fn lemma_removed_id_not_probed(s: Seq<Route>, id: Seq<char>)
    requires
        owned_lookup(s, id) is None,
    ensures
        forall|i: int| 0 <= i < s.len() ==> s[i].id@ != id,
{
    lemma_owned_lookup_none(s, id);
}

/// The private state of one interval's scheduler task: the tick period it
/// was created for, the routes it currently owns, and whether a shutdown
/// message has ended it.
pub struct SchedulerState {
    pub interval: i32,
    pub routes: Vec<Route>,
    pub stopped: bool,
}

impl SchedulerState {
    /// The private map binds each id at most once.
    pub open spec fn wf(self) -> bool {
        owned_ids_unique(self.routes@)
    }

    pub fn new(interval: i32) -> (r: SchedulerState)
        ensures
            r.wf(),
            r.interval == interval,
            r.routes@ == Seq::<Route>::empty(),
            !r.stopped,
    {
        SchedulerState { interval, routes: Vec::new(), stopped: false }
    }

    /// Applies one drained control message: AddRoute inserts (overwriting
    /// an entry with the same id), RemoveRoute deletes if present, and
    /// Shutdown ends the scheduler.
    pub fn apply(&mut self, msg: ControlMessage)
        requires
            old(self).wf(),
        ensures
            final(self).wf(),
            final(self).interval == old(self).interval,
            final(self).stopped == (old(self).stopped || msg is Shutdown),
            (match msg {
                ControlMessage::AddRoute(r) => {
                    &&& owned_lookup(final(self).routes@, r.id@) == Some(r@)
                    &&& (forall|id: Seq<char>| #![trigger owned_lookup(final(self).routes@, id)]
                        id != r.id@ ==> owned_lookup(final(self).routes@, id) == owned_lookup(
                            old(self).routes@,
                            id,
                        ))
                },
                ControlMessage::RemoveRoute(rid) => {
                    &&& owned_lookup(final(self).routes@, rid@) is None
                    &&& (forall|id: Seq<char>| #![trigger owned_lookup(final(self).routes@, id)]
                        id != rid@ ==> owned_lookup(final(self).routes@, id) == owned_lookup(
                            old(self).routes@,
                            id,
                        ))
                },
                ControlMessage::Shutdown => final(self).routes@ == old(self).routes@,
            }),
    {
        match msg {
            ControlMessage::AddRoute(r) => {
                let n = self.routes.len();
                for i in 0..n
                    invariant
                        n == self.routes.len(),
                        old(self).wf(),
                        msg == ControlMessage::AddRoute(r),
                        self.routes@ == old(self).routes@,
                        self.interval == old(self).interval,
                        self.stopped == old(self).stopped,
                        forall|k: int| 0 <= k < i ==> self.routes@[k].id@ != r.id@,
                {
                    if self.routes[i].id == r.id {
                        let ghost s0 = self.routes@;
                        let ghost rv = r;
                        self.routes.set(i, r);
                        proof {
                            assert(self.routes@ == s0.update(i as int, rv));
                            assert forall|id: Seq<char>| true implies #[trigger] owned_lookup(
                                self.routes@,
                                id,
                            ) == (if id == rv.id@ {
                                Some(rv@)
                            } else {
                                owned_lookup(s0, id)
                            }) by {
                                lemma_owned_lookup_update(s0, i as int, rv, id);
                            }
                            assert(owned_ids_unique(self.routes@)) by {
                                assert(forall|k: int|
                                    0 <= k < self.routes@.len() ==> #[trigger] self.routes@[k].id@
                                        == s0[k].id@);
                            }
                        }
                        return ;
                    }
                }
                let ghost s0 = self.routes@;
                let ghost rv = r;
                self.routes.push(r);
                proof {
                    lemma_owned_lookup_none(s0, rv.id@);
                    assert forall|id: Seq<char>| true implies #[trigger] owned_lookup(
                        self.routes@,
                        id,
                    ) == (if owned_lookup(s0, id) is Some {
                        owned_lookup(s0, id)
                    } else if rv.id@ == id {
                        Some(rv@)
                    } else {
                        None::<RouteV>
                    }) by {
                        lemma_owned_lookup_push(s0, rv, id);
                    }
                    assert(owned_ids_unique(self.routes@)) by {
                        assert(forall|k: int| 0 <= k < s0.len() ==> #[trigger] self.routes@[k]
                            == s0[k]);
                    }
                }
            },
            ControlMessage::RemoveRoute(rid) => {
                let n = self.routes.len();
                for i in 0..n
                    invariant
                        n == self.routes.len(),
                        old(self).wf(),
                        msg == ControlMessage::RemoveRoute(rid),
                        self.routes@ == old(self).routes@,
                        self.interval == old(self).interval,
                        self.stopped == old(self).stopped,
                        forall|k: int| 0 <= k < i ==> self.routes@[k].id@ != rid@,
                {
                    if self.routes[i].id == rid {
                        let ghost s0 = self.routes@;
                        let _ = self.routes.remove(i);
                        proof {
                            assert forall|id: Seq<char>| true implies #[trigger] owned_lookup(
                                self.routes@,
                                id,
                            ) == (if id == s0[i as int].id@ {
                                None::<RouteV>
                            } else {
                                owned_lookup(s0, id)
                            }) by {
                                lemma_owned_lookup_remove(s0, i as int, id);
                            }
                            assert(owned_ids_unique(self.routes@)) by {
                                assert(forall|k: int|
                                    0 <= k < self.routes@.len() ==> #[trigger] self.routes@[k]
                                        == (if k < i { s0[k] } else { s0[k + 1] }));
                            }
                        }
                        return ;
                    }
                }
                proof {
                    lemma_owned_lookup_none(self.routes@, rid@);
                }
            },
            ControlMessage::Shutdown => {
                self.stopped = true;
            },
        }
    }

    /// The routes to probe this tick: a snapshot of everything currently
    /// owned, handed to the concurrent fan-out.
    pub fn snapshot(&self) -> (r: Vec<Route>)
        ensures
            route_views(r@) == route_views(self.routes@),
    {
        let mut r: Vec<Route> = Vec::new();
        let n = self.routes.len();
        for i in 0..n
            invariant
                n == self.routes.len(),
                route_views(r@) == route_views(self.routes@.take(i as int)),
        {
            let ghost before = r@;
            let c = self.routes[i].clone();
            let ghost cv = c@;
            r.push(c);
            proof {
                lemma_route_views_push(before, r@.last());
                assert(r@.last()@ == cv);
                assert(self.routes@.take(i + 1) =~= self.routes@.take(i as int).push(
                    self.routes@[i as int],
                ));
                lemma_route_views_push(self.routes@.take(i as int), self.routes@[i as int]);
                assert(route_views(r@) == route_views(self.routes@.take(i + 1)));
            }
        }
        proof {
            assert(self.routes@.take(n as int) =~= self.routes@);
        }
        r
    }

    /// Whether the private map is empty; an empty scheduler skips the
    /// fan-out and just waits for its next tick.
    pub fn is_empty(&self) -> (r: bool)
        ensures
            r == (self.routes@.len() == 0),
    {
        self.routes.len() == 0
    }
}

} // verus!
