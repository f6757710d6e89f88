//! The decisions of the change watcher: raw filesystem events mark the vault
//! dirty, and a poll timeout after a quiet period emits one notification.
//! Times are microseconds on a monotonic clock.
use vstd::prelude::*;

verus! {

/// How long the monitoring loop waits for the next raw event.
pub const POLL_INTERVAL_US: u64 = 100_000;

/// The silence after the last raw event that must pass before a
/// notification.
pub const QUIET_PERIOD_US: u64 = 300_000;

/// What the monitoring loop observed when its wait ended.
#[derive(Debug, Clone, Copy, PartialEq, Eq)]
pub enum WatchEvent {
    /// A raw filesystem event arrived at the given time.
    Raw { at: u64 },
    /// The event source reported an error; it is logged and ignored.
    ReadError,
    /// The wait timed out at the given time.
    Timeout { at: u64 },
}

/// The state of the debounce: whether events are pending, and when the last
/// one arrived.
#[derive(Debug, Clone, Copy, PartialEq, Eq)]
pub struct Debouncer {
    dirty: bool,
    last_event: u64,
}

/// Time from `from` to `to`, or zero if the clock reads earlier.
pub open spec fn elapsed(from: u64, to: u64) -> nat {
    if to >= from {
        (to - from) as nat
    } else {
        0
    }
}

impl Debouncer {
    /// Events arrived that no notification has covered yet.
    pub closed spec fn is_dirty(&self) -> bool {
        self.dirty
    }

    /// The time of the last raw event.
    pub closed spec fn last(&self) -> u64 {
        self.last_event
    }

    /// Whether a step with `ev` from this state emits a notification.
    pub open spec fn emits(&self, ev: WatchEvent) -> bool {
        match ev {
            WatchEvent::Timeout { at } => self.is_dirty() && elapsed(self.last(), at)
                > QUIET_PERIOD_US,
            _ => false,
        }
    }

    /// The state after a step with `ev`.
    pub closed spec fn after(&self, ev: WatchEvent) -> Debouncer {
        match ev {
            WatchEvent::Raw { at } => Debouncer { dirty: true, last_event: at },
            WatchEvent::ReadError => *self,
            WatchEvent::Timeout { .. } => if self.emits(ev) {
                Debouncer { dirty: false, ..*self }
            } else {
                *self
            },
        }
    }

    /// A clean debouncer.
    pub fn new() -> (r: Debouncer)
        ensures
            !r.is_dirty(),
    {
        Debouncer { dirty: false, last_event: 0 }
    }

    /// Whether events are pending.
    pub fn pending(&self) -> (r: bool)
        ensures
            r == self.is_dirty(),
    {
        self.dirty
    }

    /// Takes one observation of the loop; returns whether to emit the
    /// "vault changed" notification now.
    pub fn step(&mut self, ev: WatchEvent) -> (emit: bool)
        ensures
            emit == old(self).emits(ev),
            *final(self) == old(self).after(ev),
            match ev {
                WatchEvent::Raw { at } => final(self).is_dirty() && final(self).last() == at,
                WatchEvent::ReadError => *final(self) == *old(self),
                WatchEvent::Timeout { .. } => if emit {
                    !final(self).is_dirty() && final(self).last() == old(self).last()
                } else {
                    *final(self) == *old(self)
                },
            },
    {
        match ev {
            WatchEvent::Raw { at } => {
                self.dirty = true;
                self.last_event = at;
                false
            },
            WatchEvent::ReadError => false,
            WatchEvent::Timeout { at } => {
                let quiet = at >= self.last_event && at - self.last_event > QUIET_PERIOD_US;
                if self.dirty && quiet {
                    self.dirty = false;
                    true
                } else {
                    false
                }
            },
        }
    }
}

/// The state after the steps `evs`, in order.
pub open spec fn run(d: Debouncer, evs: Seq<WatchEvent>) -> Debouncer
    decreases evs.len(),
{
    if evs.len() == 0 {
        d
    } else {
        run(d, evs.drop_last()).after(evs.last())
    }
}

/// The number of notifications that the steps `evs` emit.
pub open spec fn notifications(d: Debouncer, evs: Seq<WatchEvent>) -> nat
    decreases evs.len(),
{
    if evs.len() == 0 {
        0
    } else {
        notifications(d, evs.drop_last()) + if run(d, evs.drop_last()).emits(evs.last()) {
            1nat
        } else {
            0nat
        }
    }
}

/// No raw event among `evs`.
pub open spec fn quiet(evs: Seq<WatchEvent>) -> bool {
    forall|i: int| 0 <= i < evs.len() ==> !(evs[i] is Raw)
}

/// Without new raw events the debouncer emits at most once, whatever the
/// timeouts and read errors: a burst yields one notification, not a storm.
pub proof fn law_at_most_one_notification_without_events(d: Debouncer, evs: Seq<WatchEvent>)
    requires
        quiet(evs),
    ensures
        notifications(d, evs) <= 1,
        notifications(d, evs) == 1 ==> !run(d, evs).is_dirty(),
        !d.is_dirty() ==> notifications(d, evs) == 0,
    decreases evs.len(),
{
    if evs.len() > 0 {
        let init = evs.drop_last();
        assert(quiet(init)) by {
            assert forall|i: int| 0 <= i < init.len() implies !(init[i] is Raw) by {
                assert(init[i] == evs[i]);
            }
        }
        law_at_most_one_notification_without_events(d, init);
        lemma_clean_stays_clean(d, init);
        assert(!(evs.last() is Raw)) by {
            assert(evs.last() == evs[evs.len() - 1]);
        }
    }
}

/// From a state without pending events, steps without raw events leave it
/// clean.
proof fn lemma_clean_stays_clean(d: Debouncer, evs: Seq<WatchEvent>)
    requires
        quiet(evs),
    ensures
        !d.is_dirty() ==> !run(d, evs).is_dirty(),
        notifications(d, evs) > 0 ==> !run(d, evs).is_dirty(),
    decreases evs.len(),
{
    if evs.len() > 0 {
        let init = evs.drop_last();
        assert(quiet(init)) by {
            assert forall|i: int| 0 <= i < init.len() implies !(init[i] is Raw) by {
                assert(init[i] == evs[i]);
            }
        }
        lemma_clean_stays_clean(d, init);
        assert(!(evs.last() is Raw)) by {
            assert(evs.last() == evs[evs.len() - 1]);
        }
    }
}

/// A raw event defers any notification until a timeout more than the quiet
/// period after it; the first such timeout, with no raw event in between,
/// emits.
pub proof fn law_notification_waits_for_quiet(d: Debouncer, at: u64, ev: WatchEvent)
    ensures
        !d.emits(WatchEvent::Raw { at }),
        d.after(WatchEvent::Raw { at }).emits(ev) <==> (ev matches WatchEvent::Timeout { at: t }
            && elapsed(at, t) > QUIET_PERIOD_US),
{
}

} // verus!
