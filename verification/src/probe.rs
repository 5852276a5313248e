//! Probe evaluation: one check of a route is a bounded sequence of HTTP
//! attempts. An attempt either yields a status code or fails in transport;
//! the prober retries failed attempts up to the route's retry budget, stops
//! at the first success, and finally holds the cumulative elapsed time
//! against the route's latency threshold.
use vstd::prelude::*;

use crate::route::RequestLog;
use crate::route::Route;

verus! {

/// What one HTTP attempt came back with: a status code, or a transport
/// failure (connection error or timeout) with no status at all.
#[derive(Clone, Copy, Debug, PartialEq, Eq, Structural)]
pub enum AttemptOutcome {
    Response(i32),
    TransportError,
}

/// True when `status` counts as a successful attempt: it must equal the
/// expected status code when one is configured, and otherwise fall in the
/// conventional 2xx success range.
pub open spec fn spec_attempt_success(expected: Option<i32>, status: i32) -> bool {
    match expected {
        Some(x) => status == x,
        None => 200 <= status < 300,
    }
}

/// True when the attempt outcome `o` satisfies the status criterion.
pub open spec fn outcome_ok(expected: Option<i32>, o: AttemptOutcome) -> bool {
    match o {
        AttemptOutcome::Response(s) => spec_attempt_success(expected, s),
        AttemptOutcome::TransportError => false,
    }
}

/// How many attempts a probe may make: the first one plus the retry budget.
/// A negative budget leaves no attempt at all; an absent one means a single
/// attempt.
pub open spec fn spec_max_attempts(retries: Option<i32>) -> nat {
    match retries {
        Some(n) => if n < 0 {
            0
        } else {
            (n + 1) as nat
        },
        None => 1,
    }
}

/// Where a probe run ends up: how many attempts it used, the last status
/// code observed across them (if any attempt got a response at all), and
/// whether the last attempt satisfied the status criterion.
pub ghost struct RunResult {
    pub used: nat,
    pub status: Option<i32>,
    pub ok: bool,
}

/// The probe loop as a function of the attempt outcomes it would see:
/// attempts are taken from `outcomes` in order, at most `max` of them,
/// stopping early at the first success. A response records its status even
/// when a later attempt fails in transport.
pub open spec fn probe_run(expected: Option<i32>, outcomes: Seq<AttemptOutcome>, max: nat) -> RunResult
    decreases outcomes.len(),
{
    if max == 0 || outcomes.len() == 0 {
        RunResult { used: 0, status: None, ok: false }
    } else {
        match outcomes[0] {
            AttemptOutcome::Response(s) => {
                if spec_attempt_success(expected, s) {
                    RunResult { used: 1, status: Some(s), ok: true }
                } else if max == 1 {
                    RunResult { used: 1, status: Some(s), ok: false }
                } else {
                    let rest = probe_run(expected, outcomes.drop_first(), (max - 1) as nat);
                    RunResult {
                        used: rest.used + 1,
                        status: if rest.status is None {
                            Some(s)
                        } else {
                            rest.status
                        },
                        ok: rest.ok,
                    }
                }
            },
            AttemptOutcome::TransportError => {
                if max == 1 {
                    RunResult { used: 1, status: None, ok: false }
                } else {
                    let rest = probe_run(expected, outcomes.drop_first(), (max - 1) as nat);
                    RunResult { used: rest.used + 1, status: rest.status, ok: rest.ok }
                }
            },
        }
    }
}

/// The overall verdict of a probe: the status criterion must have been met,
/// and, when a latency threshold is set, the cumulative elapsed time must
/// not exceed it.
pub open spec fn spec_final_success(ok: bool, elapsed_ms: i32, threshold: Option<i32>) -> bool {
    ok && match threshold {
        Some(t) => elapsed_ms <= t,
        None => true,
    }
}

/// Decides whether one HTTP attempt satisfied the route's status criterion.
pub fn attempt_success(expected: Option<i32>, status: i32) -> (r: bool)
    ensures
        r == spec_attempt_success(expected, status),
{
    match expected {
        Some(x) => status == x,
        None => 200 <= status && status < 300,
    }
}

/// Relies on `uuid::Uuid::new_v4` and its `Display` impl: a fresh random
/// UUID rendered in the hyphenated format, which is 36 ASCII characters.
/// The value is random, so nothing else is promised of it.
#[verifier::external_body]
fn new_probe_id() -> (r: String)
    ensures
        r@.len() == 36,
{
    uuid::Uuid::new_v4().to_string()
}

/// Drives the attempt loop of one probe. The caller performs the HTTP
/// attempts and reports each outcome; the prober decides whether to retry
/// and keeps the status bookkeeping.
pub struct Prober {
    pub expected: Option<i32>,
    pub max_attempts: u32,
    pub used: u32,
    pub status: Option<i32>,
    pub ok: bool,
    pub history: Ghost<Seq<AttemptOutcome>>,
}

impl Prober {
    /// The prober's bookkeeping always mirrors `probe_run` over the
    /// outcomes it has been shown so far.
    pub open spec fn inv(self) -> bool {
        &&& self.used == self.history@.len()
        &&& self.used <= self.max_attempts
        &&& probe_run(self.expected, self.history@, self.max_attempts as nat) == RunResult {
            used: self.used as nat,
            status: self.status,
            ok: self.ok,
        }
    }

    /// True while the probe is still running: no success yet and attempts
    /// remain in the budget.
    pub open spec fn spec_wants_attempt(self) -> bool {
        !self.ok && self.used < self.max_attempts
    }

    pub fn new(expected: Option<i32>, retries: Option<i32>) -> (r: Prober)
        ensures
            r.inv(),
            r.expected == expected,
            r.max_attempts as nat == spec_max_attempts(retries),
            r.used == 0,
            r.status is None,
            !r.ok,
            r.history@ == Seq::<AttemptOutcome>::empty(),
    {
        let max: u32 = match retries {
            None => 1,
            Some(n) => if n < 0 {
                0
            } else {
                (n as u32) + 1
            },
        };
        Prober {
            expected,
            max_attempts: max,
            used: 0,
            status: None,
            ok: false,
            history: Ghost(Seq::empty()),
        }
    }

    /// Builds the prober for one route's policy.
    pub fn for_route(route: &Route) -> (r: Prober)
        ensures
            r.inv(),
            r.expected == route.expected_status,
            r.max_attempts as nat == spec_max_attempts(route.retries),
            r.used == 0,
            r.status is None,
            !r.ok,
            r.history@ == Seq::<AttemptOutcome>::empty(),
    {
        Prober::new(route.expected_status, route.retries)
    }

    /// Whether the caller should perform (another) HTTP attempt.
    pub fn wants_attempt(&self) -> (r: bool)
        ensures
            r == self.spec_wants_attempt(),
    {
        !self.ok && self.used < self.max_attempts
    }

    /// Feeds the outcome of one attempt. Returns true when the caller
    /// should back off and try again; false when the probe is finished,
    /// by success or by an exhausted budget.
    pub fn record(&mut self, outcome: AttemptOutcome) -> (retry: bool)
        requires
            old(self).inv(),
            old(self).spec_wants_attempt(),
        ensures
            final(self).inv(),
            final(self).expected == old(self).expected,
            final(self).max_attempts == old(self).max_attempts,
            final(self).history@ == old(self).history@.push(outcome),
            final(self).used == old(self).used + 1,
            final(self).ok == outcome_ok(old(self).expected, outcome),
            final(self).status == (match outcome {
                AttemptOutcome::Response(s) => Some(s),
                AttemptOutcome::TransportError => old(self).status,
            }),
            retry == final(self).spec_wants_attempt(),
    {
        proof {
            lemma_probe_run_push(
                self.expected,
                self.history@,
                self.max_attempts as nat,
                outcome,
            );
        }
        match outcome {
            AttemptOutcome::Response(s) => {
                self.status = Some(s);
                self.ok = attempt_success(self.expected, s);
            },
            AttemptOutcome::TransportError => {
                self.ok = false;
            },
        }
        self.used = self.used + 1;
        proof {
            self.history@ = self.history@.push(outcome);
        }
        !self.ok && self.used < self.max_attempts
    }

    /// Closes the probe: applies the latency threshold to the cumulative
    /// elapsed time and assembles the record to persist, under a fresh
    /// probe id.
    pub fn finish(&self, route_id: &String, elapsed_ms: i32, threshold: Option<i32>) -> (log:
        RequestLog)
        requires
            !self.spec_wants_attempt(),
        ensures
            log.status_code == self.status,
            log.response_time == Some(elapsed_ms),
            log.is_success == spec_final_success(self.ok, elapsed_ms, threshold),
            log.route_id@ == route_id@,
            log.id@.len() == 36,
    {
        let over = match threshold {
            Some(t) => elapsed_ms > t,
            None => false,
        };
        RequestLog {
            id: new_probe_id(),
            status_code: self.status,
            response_time: Some(elapsed_ms),
            is_success: self.ok && !over,
            route_id: route_id.clone(),
        }
    }
}

/// Appending one more outcome to a run that has neither succeeded nor
/// exhausted its budget extends the run by exactly that attempt.
proof fn lemma_probe_run_push(
    expected: Option<i32>,
    h: Seq<AttemptOutcome>,
    max: nat,
    o: AttemptOutcome,
)
    requires
        h.len() < max,
        probe_run(expected, h, max).used == h.len(),
        !probe_run(expected, h, max).ok,
    ensures
        probe_run(expected, h.push(o), max) == (RunResult {
            used: (h.len() + 1) as nat,
            status: (match o {
                AttemptOutcome::Response(s) => Some(s),
                AttemptOutcome::TransportError => probe_run(expected, h, max).status,
            }),
            ok: outcome_ok(expected, o),
        }),
    decreases h.len(),
{
    if h.len() == 0 {
        assert(h.push(o)[0] == o);
        assert(h.push(o).drop_first() =~= Seq::<AttemptOutcome>::empty());
        if max > 1 {
            assert(probe_run(expected, h.push(o).drop_first(), (max - 1) as nat) == RunResult {
                used: 0nat,
                status: None::<i32>,
                ok: false,
            });
        }
    } else {
        assert(h.push(o)[0] == h[0]);
        assert(h.push(o).drop_first() =~= h.drop_first().push(o));
        let rest = probe_run(expected, h.drop_first(), (max - 1) as nat);
        assert(rest.used == h.drop_first().len() && !rest.ok) by {
            match h[0] {
                AttemptOutcome::Response(s) => {
                    assert(!spec_attempt_success(expected, s));
                },
                AttemptOutcome::TransportError => {},
            }
        }
        lemma_probe_run_push(expected, h.drop_first(), (max - 1) as nat, o);
    }
}

/// A probe run never uses more attempts than its budget, nor more than the
/// outcomes available.
pub proof fn lemma_attempts_bounded(expected: Option<i32>, outcomes: Seq<AttemptOutcome>, max: nat)
    ensures
        probe_run(expected, outcomes, max).used <= max,
        probe_run(expected, outcomes, max).used <= outcomes.len(),
    decreases outcomes.len(),
{
    if max == 0 || outcomes.len() == 0 {
    } else {
        lemma_attempts_bounded(expected, outcomes.drop_first(), (max - 1) as nat);
    }
}

/// The prober stops at the first successful attempt: if attempt `i` is the
/// first to satisfy the status criterion and it lies within the budget,
/// exactly `i + 1` attempts are used and the run succeeds.
pub proof fn lemma_stops_on_first_success(
    expected: Option<i32>,
    outcomes: Seq<AttemptOutcome>,
    max: nat,
    i: int,
)
    requires
        0 <= i < outcomes.len(),
        i < max,
        outcome_ok(expected, outcomes[i]),
        forall|j: int| 0 <= j < i ==> !outcome_ok(expected, outcomes[j]),
    ensures
        probe_run(expected, outcomes, max).used == i + 1,
        probe_run(expected, outcomes, max).ok,
    decreases i,
{
    if i == 0 {
    } else {
        assert(!outcome_ok(expected, outcomes[0]));
        assert(forall|j: int|
            0 <= j < i - 1 ==> outcomes.drop_first()[j] == outcomes[j + 1]
                && !outcome_ok(expected, #[trigger] outcomes.drop_first()[j]));
        lemma_stops_on_first_success(expected, outcomes.drop_first(), (max - 1) as nat, i - 1);
    }
}

/// When no attempt satisfies the status criterion the run fails, and it
/// consumes the whole budget (or every available outcome, whichever runs
/// out first): a failed attempt with budget left is always retried.
pub proof fn lemma_failures_exhaust_budget(
    expected: Option<i32>,
    outcomes: Seq<AttemptOutcome>,
    max: nat,
)
    requires
        forall|j: int| 0 <= j < outcomes.len() ==> !outcome_ok(expected, outcomes[j]),
    ensures
        !probe_run(expected, outcomes, max).ok,
        probe_run(expected, outcomes, max).used == (if outcomes.len() <= max {
            outcomes.len()
        } else {
            max
        }),
    decreases outcomes.len(),
{
    if max == 0 || outcomes.len() == 0 {
    } else {
        assert(!outcome_ok(expected, outcomes[0]));
        assert(forall|j: int|
            0 <= j < outcomes.drop_first().len() ==> outcomes.drop_first()[j] == outcomes[j + 1]
                && !outcome_ok(expected, #[trigger] outcomes.drop_first()[j]));
        lemma_failures_exhaust_budget(expected, outcomes.drop_first(), (max - 1) as nat);
    }
}

/// With an expected status code configured, a run whose first satisfying
/// attempt returned exactly that code succeeds on the status criterion,
/// and the latency threshold then decides the verdict alone: the same run
/// passes when the elapsed time is within the threshold and fails when it
/// exceeds it.
pub proof fn lemma_threshold_gates_expected_status(
    x: i32,
    outcomes: Seq<AttemptOutcome>,
    max: nat,
    i: int,
    elapsed_ms: i32,
    t: i32,
)
    requires
        0 <= i < outcomes.len(),
        i < max,
        outcomes[i] == AttemptOutcome::Response(x),
        forall|j: int| 0 <= j < i ==> !outcome_ok(Some(x), outcomes[j]),
    ensures
        probe_run(Some(x), outcomes, max).ok,
        spec_final_success(probe_run(Some(x), outcomes, max).ok, elapsed_ms, Some(t)) == (
        elapsed_ms <= t),
{
    assert(outcome_ok(Some(x), outcomes[i]));
    lemma_stops_on_first_success(Some(x), outcomes, max, i);
}

/// With no expected status code, exactly the 2xx statuses satisfy an
/// attempt; any other status leaves the attempt a failure, eligible for
/// retry while budget remains.
pub proof fn lemma_default_success_is_2xx(status: i32)
    ensures
        spec_attempt_success(None::<i32>, status) == (200 <= status < 300),
        outcome_ok(None::<i32>, AttemptOutcome::Response(status)) == (200 <= status < 300),
{
}

} // verus!
