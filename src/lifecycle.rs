use vstd::prelude::*;

verus! {

/// Where the server stands in its life.
#[derive(PartialEq, Eq, Structural, Debug, Clone, Copy)]
pub enum Phase {
    /// Accepting connections.
    Running,
    /// Refusing new connections, letting accepted requests finish.
    Draining,
    /// Done; terminal.
    Stopped,
}

/// The lifecycle controller: the phase, how many accepted requests are unfinished, the
/// grace period that a drain gets, and the time by which the current drain must end.
pub struct Lifecycle {
    pub phase: Phase,
    pub in_flight: u64,
    pub grace: Option<u64>,
    pub deadline: Option<u64>,
}

/// The controller is consistent: a deadline exists only once a drain has begun.
pub open spec fn life_wf(l: Lifecycle) -> bool {
    l.phase == Phase::Running ==> l.deadline is None
}

/// The state after a termination signal at time `now`: a running controller starts to
/// drain, with a deadline `grace` after `now` (none without a grace period, or when it
/// would pass the largest time), and stops at once when nothing is in flight; in any other
/// phase the signal changes nothing.
pub open spec fn signal_spec(l: Lifecycle, now: u64) -> Lifecycle {
    if l.phase == Phase::Running {
        let deadline = match l.grace {
            Some(g) => if now + g <= u64::MAX { Some((now + g) as u64) } else { None },
            None => None,
        };
        Lifecycle {
            phase: if l.in_flight == 0 { Phase::Stopped } else { Phase::Draining },
            deadline,
            ..l
        }
    } else {
        l
    }
}

/// Whether a new connection is taken: only while running, and while the count has room.
pub open spec fn accepts(l: Lifecycle) -> bool {
    l.phase == Phase::Running && l.in_flight < u64::MAX
}

/// The state after a connection attempt.
pub open spec fn accept_spec(l: Lifecycle) -> Lifecycle {
    if accepts(l) {
        Lifecycle { in_flight: (l.in_flight + 1) as u64, ..l }
    } else {
        l
    }
}

/// The state after an accepted request got its response: one fewer in flight, and a drain
/// with none left is over.
pub open spec fn complete_spec(l: Lifecycle) -> Lifecycle {
    let n = if l.in_flight > 0 { (l.in_flight - 1) as u64 } else { 0 };
    Lifecycle {
        in_flight: n,
        phase: if l.phase == Phase::Draining && n == 0 { Phase::Stopped } else { l.phase },
        ..l
    }
}

/// Whether a drain has run out of time at `now`.
pub open spec fn expired(l: Lifecycle, now: u64) -> bool {
    l.phase == Phase::Draining && (l.deadline matches Some(d) && now >= d)
}

/// The state when the clock reads `now`: a drain past its deadline stops at once.
pub open spec fn tick_spec(l: Lifecycle, now: u64) -> Lifecycle {
    if expired(l, now) {
        Lifecycle { phase: Phase::Stopped, ..l }
    } else {
        l
    }
}

impl Lifecycle {
    /// A running controller with nothing in flight; a drain may last `grace` at most.
    pub fn new(grace: Option<u64>) -> (r: Lifecycle)
        ensures
            life_wf(r),
            r.phase == Phase::Running,
            r.in_flight == 0,
            r.grace == grace,
            r.deadline is None,
    {
        Lifecycle { phase: Phase::Running, in_flight: 0, grace, deadline: None }
    }

    /// A termination signal at time `now`; true when it began the drain.
    pub fn signal(&mut self, now: u64) -> (began: bool)
        requires
            life_wf(*old(self)),
        ensures
            life_wf(*final(self)),
            *final(self) == signal_spec(*old(self), now),
            began == (old(self).phase == Phase::Running),
    {
        if self.phase != Phase::Running {
            return false;
        }
        self.deadline = match self.grace {
            Some(g) => now.checked_add(g),
            None => None,
        };
        self.phase = if self.in_flight == 0 { Phase::Stopped } else { Phase::Draining };
        true
    }

    /// A connection attempt; true when it is accepted and counted in flight.
    pub fn accept(&mut self) -> (accepted: bool)
        requires
            life_wf(*old(self)),
        ensures
            life_wf(*final(self)),
            *final(self) == accept_spec(*old(self)),
            accepted == accepts(*old(self)),
    {
        if self.phase == Phase::Running && self.in_flight < u64::MAX {
            self.in_flight = self.in_flight + 1;
            true
        } else {
            false
        }
    }

    /// An accepted request got its response.
    pub fn complete(&mut self)
        requires
            life_wf(*old(self)),
        ensures
            life_wf(*final(self)),
            *final(self) == complete_spec(*old(self)),
    {
        if self.in_flight > 0 {
            self.in_flight = self.in_flight - 1;
        }
        if self.phase == Phase::Draining && self.in_flight == 0 {
            self.phase = Phase::Stopped;
        }
    }

    /// The clock reads `now`; true when this forced a drain past its deadline to stop.
    pub fn tick(&mut self, now: u64) -> (forced: bool)
        requires
            life_wf(*old(self)),
        ensures
            life_wf(*final(self)),
            *final(self) == tick_spec(*old(self), now),
            forced == expired(*old(self), now),
    {
        let due = match self.deadline {
            Some(d) => now >= d,
            None => false,
        };
        if self.phase == Phase::Draining && due {
            self.phase = Phase::Stopped;
            true
        } else {
            false
        }
    }

    /// Whether the controller has stopped.
    pub fn is_stopped(&self) -> (r: bool)
        ensures
            r == (self.phase == Phase::Stopped),
    {
        self.phase == Phase::Stopped
    }
}

/// While draining, a connection attempt is refused and changes nothing.
pub proof fn lemma_draining_refuses(l: Lifecycle)
    requires
        l.phase == Phase::Draining,
    ensures
        !accepts(l),
        accept_spec(l) == l,
{
}

/// A drain does not end while a request is in flight: completing one of several leaves the
/// controller draining, and it stops only when the last one has had its response.
pub proof fn lemma_drain_waits_for_requests(l: Lifecycle)
    requires
        l.phase == Phase::Draining,
        l.in_flight > 0,
    ensures
        complete_spec(l).in_flight == l.in_flight - 1,
        complete_spec(l).phase == (if l.in_flight == 1 { Phase::Stopped } else { Phase::Draining }),
        forall|now: u64| !expired(l, now) ==> #[trigger] tick_spec(l, now) == l,
{
}

/// A drain with a deadline never waits past it: at or after the deadline the controller
/// stops, whatever is still in flight.
pub proof fn lemma_deadline_forces_stop(l: Lifecycle, now: u64)
    requires
        l.phase == Phase::Draining,
        l.deadline matches Some(d) && now >= d,
    ensures
        tick_spec(l, now).phase == Phase::Stopped,
{
}

/// The drain begins once: a second signal changes nothing, and a stopped controller stays
/// stopped whatever happens.
pub proof fn lemma_signal_once_stopped_final(l: Lifecycle, now: u64)
    requires
        l.phase != Phase::Running,
    ensures
        signal_spec(l, now) == l,
        l.phase == Phase::Stopped ==> accept_spec(l) == l && complete_spec(l).phase == Phase::Stopped
            && tick_spec(l, now) == l,
{
}

} // verus!
