//! A debouncer that fires once after a query has stopped changing for a delay.
use std::time::{Duration, Instant};

use vstd::prelude::*;

use crate::text::str_eq;

verus! {

#[verifier::external_type_specification]
#[verifier::external_body]
pub struct ExInstant(Instant);

/// The length of a duration in nanoseconds, as `Duration::as_nanos` gives it.
pub uninterp spec fn duration_nanos(d: Duration) -> u128;

/// Calls `Instant::now`; nothing is claimed of the instant it returns.
#[verifier::external_body]
fn instant_now() -> Instant {
    Instant::now()
}

/// Calls `Instant::elapsed` and `Duration::as_nanos`: the nanoseconds since
/// `t`. What it returns depends on the clock; nothing is claimed of it.
#[verifier::external_body]
fn nanos_since(t: &Instant) -> u128 {
    t.elapsed().as_nanos()
}

/// Calls `Duration::as_nanos`: the whole duration in nanoseconds.
#[verifier::external_body]
fn nanos_of(d: &Duration) -> (r: u128)
    ensures
        r == duration_nanos(*d),
{
    d.as_nanos()
}

/// Fires once after the query has been stable for `delay`.
///
/// Call `update` with the current query on every frame where it might have
/// changed, and `ready` later in the frame to learn whether it is time to act.
/// Times are nanoseconds on a clock that starts when the debouncer is made.
pub struct Debouncer {
    pub last_query: String,
    trigger_at: Option<u128>,
    delay: u128,
    clock: Instant,
}

/// What the logic of a debouncer reads: the last query, when the pending
/// trigger started (if one is pending), and the delay, in nanoseconds.
pub struct DebouncerView {
    pub last_query: Seq<char>,
    pub trigger_at: Option<u128>,
    pub delay: u128,
}

impl View for Debouncer {
    type V = DebouncerView;

    closed spec fn view(&self) -> DebouncerView {
        DebouncerView { last_query: self.last_query@, trigger_at: self.trigger_at, delay: self.delay }
    }
}

/// Whether a trigger is set (started and not yet fired).
pub open spec fn armed(v: DebouncerView) -> bool {
    v.trigger_at is Some
}

/// The time passed at `now` since the trigger started; none when the clock
/// reads earlier than the trigger (as `Instant::elapsed` saturates).
pub open spec fn elapsed_at(v: DebouncerView, now: u128) -> int {
    match v.trigger_at {
        Some(t) => if now >= t { now - t } else { 0 },
        None => 0,
    }
}

/// Whether the debouncer fires at `now`: a trigger is set and its delay has
/// passed.
pub open spec fn fires_at(v: DebouncerView, now: u128) -> bool {
    armed(v) && elapsed_at(v, now) >= v.delay
}

/// Whether a trigger is pending at `now`: set, and its delay not yet passed.
pub open spec fn pending_at(v: DebouncerView, now: u128) -> bool {
    armed(v) && elapsed_at(v, now) < v.delay
}

/// The state after `update(q)` reading `now` on the clock: unchanged when `q`
/// is the last query, else `q` with a trigger started at `now`.
pub open spec fn updated(v: DebouncerView, q: Seq<char>, now: u128) -> DebouncerView {
    if v.last_query == q {
        v
    } else {
        DebouncerView { last_query: q, trigger_at: Some(now), delay: v.delay }
    }
}

/// The state after `ready` at `now`: the trigger cleared when it fired,
/// otherwise unchanged.
pub open spec fn after_ready(v: DebouncerView, now: u128) -> DebouncerView {
    if fires_at(v, now) {
        DebouncerView { trigger_at: None, ..v }
    } else {
        v
    }
}

/// The state of a new or reset debouncer with delay `delay`.
pub open spec fn idle_view(delay: u128) -> DebouncerView {
    DebouncerView { last_query: Seq::empty(), trigger_at: None, delay }
}

impl Debouncer {
    /// A debouncer with no query and nothing pending.
    pub fn new(delay: Duration) -> (r: Self)
        ensures
            r@ == idle_view(duration_nanos(delay)),
    {
        Self { last_query: String::new(), trigger_at: None, delay: nanos_of(&delay), clock: instant_now() }
    }

    /// Registers the current query at clock reading `now`; when it differs
    /// from the last one the debounce timer restarts at `now`.
    pub fn update_at(&mut self, current_query: &str, now: u128)
        ensures
            final(self)@ == updated(old(self)@, current_query@, now),
    {
        if !str_eq(current_query, self.last_query.as_str()) {
            self.trigger_at = Some(now);
            self.last_query = current_query.to_owned();
        }
    }

    /// Registers the current query; when it differs from the last one the
    /// debounce timer restarts at the clock's current reading.
    pub fn update(&mut self, current_query: &str)
        ensures
            exists|now: u128| final(self)@ == #[trigger] updated(old(self)@, current_query@, now),
    {
        let now = nanos_since(&self.clock);
        self.update_at(current_query, now);
    }

    /// Fires at clock reading `now` when a trigger is set and its delay has
    /// passed, clearing the trigger; otherwise changes nothing.
    pub fn ready_at(&mut self, now: u128) -> (fired: bool)
        ensures
            fired == fires_at(old(self)@, now),
            final(self)@ == after_ready(old(self)@, now),
    {
        match self.trigger_at {
            Some(t) => {
                let elapsed: u128 = if now >= t { now - t } else { 0 };
                if elapsed >= self.delay {
                    self.trigger_at = None;
                    return true;
                }
                false
            },
            None => false,
        }
    }

    /// Returns `true` once when the delay has elapsed since the last query
    /// change, clearing the trigger; `false` while waiting or when no change
    /// has been registered. It reads the clock once.
    pub fn ready(&mut self) -> (fired: bool)
        ensures
            exists|now: u128|
                fired == #[trigger] fires_at(old(self)@, now) && final(self)@ == after_ready(
                    old(self)@,
                    now,
                ),
    {
        let now = nanos_since(&self.clock);
        self.ready_at(now)
    }

    /// Clears the query and any pending trigger.
    pub fn reset(&mut self)
        ensures
            final(self)@ == idle_view(old(self)@.delay),
    {
        self.last_query = String::new();
        self.trigger_at = None;
    }

    /// Whether a trigger is pending at clock reading `now`: started and its
    /// delay not yet elapsed.
    pub fn pending_at(&self, now: u128) -> (b: bool)
        ensures
            b == pending_at(self@, now),
    {
        match self.trigger_at {
            Some(t) => {
                let elapsed: u128 = if now >= t { now - t } else { 0 };
                elapsed < self.delay
            },
            None => false,
        }
    }

    /// Whether a trigger is pending: started and its delay not yet elapsed.
    /// It reads the clock once.
    pub fn pending(&self) -> (b: bool)
        ensures
            exists|now: u128| b == #[trigger] pending_at(self@, now),
    {
        let now = nanos_since(&self.clock);
        self.pending_at(now)
    }
}

/// A debouncer fires at most once per change: after `ready` fired, a second
/// `ready` without an `update` in between does not fire, whenever it runs.
pub proof fn lemma_ready_fires_once(a: DebouncerView, t1: u128, t2: u128)
    requires
        fires_at(a, t1),
    ensures
        !fires_at(after_ready(a, t1), t2),
{
}

/// Without a change of query nothing fires: from a state with nothing set
/// (new or reset), an `update` with the same query leaves nothing to fire.
pub proof fn lemma_unchanged_query_never_fires(a: DebouncerView, q: Seq<char>, t1: u128, t2: u128)
    requires
        !armed(a),
        a.last_query == q,
    ensures
        !fires_at(updated(a, q, t1), t2),
        !pending_at(updated(a, q, t1), t2),
{
}

/// A changed query starts the timer at the update's reading, whatever was
/// pending before.
pub proof fn lemma_changed_query_arms(a: DebouncerView, q: Seq<char>, t: u128)
    requires
        a.last_query != q,
    ensures
        updated(a, q, t).trigger_at == Some(t),
        updated(a, q, t).last_query == q,
{
}

/// Once the query has stood unchanged for the delay, the debouncer fires;
/// before that it is pending and does not fire.
pub proof fn lemma_fires_after_delay(a: DebouncerView, q: Seq<char>, t: u128, now: u128)
    requires
        a.last_query != q,
        now >= t,
    ensures
        fires_at(updated(a, q, t), now) <==> now - t >= a.delay,
        pending_at(updated(a, q, t), now) <==> now - t < a.delay,
{
}

/// With a trigger set, it is either pending or due, never both; with a zero
/// delay it is always due.
pub proof fn lemma_pending_or_due(a: DebouncerView, now: u128)
    ensures
        armed(a) <==> (pending_at(a, now) || fires_at(a, now)),
        !(pending_at(a, now) && fires_at(a, now)),
        armed(a) && a.delay == 0 ==> fires_at(a, now),
{
}

/// Updating twice with the same query is the same as updating once.
pub proof fn lemma_update_idempotent(a: DebouncerView, q: Seq<char>, t1: u128, t2: u128)
    ensures
        updated(updated(a, q, t1), q, t2) == updated(a, q, t1),
{
}

} // verus!
