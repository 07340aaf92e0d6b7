//! One-shot, repeating and absolute timers driven by timeout completions:
//! the timer table decides, per completion, whether a timer finished or
//! restarted. Submitting timeouts is left to the caller, which hands back
//! the completion token it got for each.
use std::collections::HashMap;

use vstd::prelude::*;

verus! {

broadcast use vstd::std_specs::hash::group_hash_axioms;

/// Identifies a started timer.
#[derive(Clone, Copy, Debug, PartialEq, Eq, Hash, Structural)]
pub struct TimerId(pub u64);

/// A span of time: whole seconds and the nanoseconds past them.
#[derive(Clone, Copy, Debug, PartialEq, Eq, Structural)]
pub struct TimeSpan {
    pub secs: u64,
    pub nanos: u32,
}

/// Fires after `duration`; again and again if `repeat`.
#[derive(Clone, Copy, Debug)]
pub struct Relative {
    pub duration: TimeSpan,
    pub repeat: bool,
}

/// Fires when the realtime clock reaches `at` (since the epoch).
#[derive(Clone, Copy, Debug)]
pub struct Absolute {
    pub at: TimeSpan,
}

/// A timer fired: it is done, or it was started again.
#[derive(Debug, Clone, Copy)]
pub enum TimerEvent {
    Finished { id: TimerId },
    Restarted { id: TimerId },
}

/// The timer an event is about.
pub open spec fn event_id(e: TimerEvent) -> TimerId {
    match e {
        TimerEvent::Finished { id } => id,
        TimerEvent::Restarted { id } => id,
    }
}

impl TimerEvent {
    /// The timer this event is about.
    pub fn id(&self) -> (r: TimerId)
        ensures
            r == event_id(*self),
    {
        match self {
            TimerEvent::Finished { id } => *id,
            TimerEvent::Restarted { id } => *id,
        }
    }
}

/// When a timer fires.
#[derive(Clone, Copy, Debug)]
pub enum Timing {
    Relative(Relative),
    Absolute(Absolute),
}

/// The timeout to submit for a timing: the span, and whether it is an
/// absolute realtime deadline.
#[derive(Clone, Copy, Debug, PartialEq, Eq, Structural)]
pub struct TimeoutRequest {
    pub span: TimeSpan,
    pub absolute: bool,
}

/// The timeout for `timing`.
pub open spec fn request_for(timing: Timing) -> TimeoutRequest {
    match timing {
        Timing::Relative(r) => TimeoutRequest { span: r.duration, absolute: false },
        Timing::Absolute(a) => TimeoutRequest { span: a.at, absolute: true },
    }
}

/// The timeout to submit for `timing`.
pub fn timeout_request(timing: &Timing) -> (r: TimeoutRequest)
    ensures
        r == request_for(*timing),
{
    match timing {
        Timing::Relative(r) => TimeoutRequest { span: r.duration, absolute: false },
        Timing::Absolute(a) => TimeoutRequest { span: a.at, absolute: true },
    }
}

/// A timer waiting for its timeout to complete.
#[derive(Clone, Copy, Debug)]
pub struct ActiveTimer {
    pub id: TimerId,
    pub timing: Timing,
}

/// What a completion means for the timer table.
pub enum Completion {
    /// The token belongs to no timer, or the timeout did not expire.
    Ignored,
    /// A one-shot or absolute timer fired and is gone.
    Finished(TimerId),
    /// A repeating timer fired; submit `timing` again and track it with
    /// `restart`.
    Restart(TimerId, Relative),
}

/// The active timers, by the completion token of their timeout, and the
/// next id to hand out.
pub struct Timer {
    active_by_token: HashMap<u64, ActiveTimer>,
    next_timer_id: u64,
}

/// `libc::ETIME`: the error number of an expired timeout on this target.
#[verifier::external_body]
fn etime() -> (e: i32) {
    libc::ETIME
}

impl Timer {
    /// The active timers by token.
    pub closed spec fn active(&self) -> Map<u64, ActiveTimer> {
        self.active_by_token@
    }

    /// The id the next started timer gets.
    pub closed spec fn next_id_value(&self) -> u64 {
        self.next_timer_id
    }

    /// No active timer; ids start at 1.
    pub fn new() -> (t: Self)
        ensures
            t.active() == Map::<u64, ActiveTimer>::empty(),
            t.next_id_value() == 1,
    {
        Timer { active_by_token: HashMap::new(), next_timer_id: 1 }
    }

    fn next_id(&mut self) -> (id: TimerId)
        requires
            old(self).next_id_value() < u64::MAX,
        ensures
            id.0 == old(self).next_id_value(),
            final(self).next_id_value() == old(self).next_id_value() + 1,
            final(self).active() == old(self).active(),
    {
        let id = TimerId(self.next_timer_id);
        self.next_timer_id = self.next_timer_id + 1;
        id
    }

    /// Starts a relative timer whose timeout (see `timeout_request`) was
    /// submitted with completion `token`.
    pub fn start_timer(&mut self, relative: Relative, token: u64) -> (id: TimerId)
        requires
            old(self).next_id_value() < u64::MAX,
        ensures
            id.0 == old(self).next_id_value(),
            final(self).next_id_value() == old(self).next_id_value() + 1,
            final(self).active() == old(self).active().insert(token, ActiveTimer { id, timing: Timing::Relative(relative) }),
    {
        let id = self.next_id();
        self.active_by_token.insert(token, ActiveTimer { id, timing: Timing::Relative(relative) });
        id
    }

    /// Starts an absolute deadline whose timeout was submitted with
    /// completion `token`.
    pub fn start_deadline(&mut self, absolute: Absolute, token: u64) -> (id: TimerId)
        requires
            old(self).next_id_value() < u64::MAX,
        ensures
            id.0 == old(self).next_id_value(),
            final(self).next_id_value() == old(self).next_id_value() + 1,
            final(self).active() == old(self).active().insert(token, ActiveTimer { id, timing: Timing::Absolute(absolute) }),
    {
        let id = self.next_id();
        self.active_by_token.insert(token, ActiveTimer { id, timing: Timing::Absolute(absolute) });
        id
    }

    /// Tracks a repeating timer again under the token of its new timeout.
    pub fn restart(&mut self, id: TimerId, relative: Relative, token: u64)
        ensures
            final(self).next_id_value() == old(self).next_id_value(),
            final(self).active() == old(self).active().insert(token, ActiveTimer { id, timing: Timing::Relative(relative) }),
    {
        self.active_by_token.insert(token, ActiveTimer { id, timing: Timing::Relative(relative) });
    }

    /// A completion with `result` for `token`, where `expired` is the error
    /// number of an expired timeout: a tracked timer stops being tracked,
    /// and when the timeout expired (or was cancelled, `result == 0`) it
    /// finished, or restarts if it repeats.
    pub fn finish(&mut self, token: u64, result: i32, expired: i32) -> (c: Completion)
        ensures
            final(self).next_id_value() == old(self).next_id_value(),
            final(self).active() == old(self).active().remove(token),
            !old(self).active().contains_key(token) ==> c is Ignored,
            old(self).active().contains_key(token) ==> {
                let a = old(self).active()[token];
                let fired = result == -expired || result == 0;
                &&& !fired ==> c is Ignored
                &&& fired ==> match a.timing {
                    Timing::Relative(r) if r.repeat => c == Completion::Restart(a.id, r),
                    _ => c == Completion::Finished(a.id),
                }
            },
    {
        match self.active_by_token.remove(&token) {
            Some(active) => {
                let fired = (expired != i32::MIN && result == -expired) || result == 0;
                if fired {
                    if let Timing::Relative(r) = active.timing {
                        if r.repeat {
                            return Completion::Restart(active.id, r);
                        }
                    }
                    Completion::Finished(active.id)
                } else {
                    Completion::Ignored
                }
            },
            None => Completion::Ignored,
        }
    }

    /// `finish` with this target's `ETIME`.
    pub fn try_finish(&mut self, token: u64, result: i32) -> (c: Completion)
        ensures
            final(self).next_id_value() == old(self).next_id_value(),
            final(self).active() == old(self).active().remove(token),
            !old(self).active().contains_key(token) ==> c is Ignored,
            old(self).active().contains_key(token) && result == 0 ==> match old(self).active()[token].timing {
                Timing::Relative(r) if r.repeat => c == Completion::Restart(old(self).active()[token].id, r),
                _ => c == Completion::Finished(old(self).active()[token].id),
            },
    {
        let e = etime();
        self.finish(token, result, e)
    }
}

/// The event a completion is reported as, if any.
pub fn completion_event(c: &Completion) -> (e: Option<TimerEvent>)
    ensures
        match *c {
            Completion::Ignored => e is None,
            Completion::Finished(id) => e == Some(TimerEvent::Finished { id }),
            Completion::Restart(id, _) => e == Some(TimerEvent::Restarted { id }),
        },
{
    match c {
        Completion::Ignored => None,
        Completion::Finished(id) => Some(TimerEvent::Finished { id: *id }),
        Completion::Restart(id, _) => Some(TimerEvent::Restarted { id: *id }),
    }
}

} // verus!
