// States of the energy-threshold gate and its trigger timer.
use vstd::prelude::*;

verus! {

/// State of the energy gate.
#[derive(Debug, Clone, Copy, PartialEq, Eq, Structural)]
pub enum GateState {
    /// Normal operation.
    Idle,
    /// Watching for a transition.
    Monitoring,
    /// The energy threshold was exceeded.
    Triggered,
    /// Recovering after a trigger.
    Recovering,
    /// A manual reset is required.
    Locked,
}

#[derive(Debug, Clone, Copy, PartialEq, Eq, Structural)]
/// Trigger count, last trigger time and cooldown end of the energy gate.
pub struct GateTimer {
    pub state: GateState,
    pub trigger_count: u32,
    pub last_trigger_time: u64,
    pub cooldown_until: u64,
}

/// The state after an update that does (`fires`) or does not call for a
/// trigger: Triggered when it does, else Recovering straight after a
/// trigger, else Idle.
pub open spec fn settled_state(state: GateState, fires: bool) -> GateState {
    if fires {
        GateState::Triggered
    } else if state == GateState::Triggered {
        GateState::Recovering
    } else {
        GateState::Idle
    }
}

impl GateTimer {
    /// Idle, never triggered, no cooldown.
    pub fn new() -> (t: Self)
        ensures
            t == (GateTimer {
                state: GateState::Idle,
                trigger_count: 0,
                last_trigger_time: 0,
                cooldown_until: 0,
            }),
    {
        GateTimer { state: GateState::Idle, trigger_count: 0, last_trigger_time: 0, cooldown_until: 0 }
    }

    /// Cooldown check at `now_ns`.
    pub fn check_cooldown(&mut self, now_ns: u64) -> (cooling: bool)
        ensures
            cooling == (now_ns < old(self).cooldown_until),
            cooling ==> *final(self) == (GateTimer { state: GateState::Recovering, ..*old(self) }),
            !cooling ==> *final(self) == *old(self),
    {
        if now_ns < self.cooldown_until {
            self.state = GateState::Recovering;
            true
        } else {
            false
        }
    }

    /// Settles an update at `now_ns`: a trigger is counted, stamped with
    /// `now_ns` and starts a cooldown of `cooldown_ms`; the new state is
    /// `settled_state`, which is returned.
    pub fn settle(&mut self, fires: bool, now_ns: u64, cooldown_ms: u64) -> (s: GateState)
        requires
            fires ==> old(self).trigger_count < u32::MAX,
            fires ==> now_ns + cooldown_ms * 1_000_000 <= u64::MAX,
        ensures
            s == settled_state(old(self).state, fires),
            final(self).state == s,
            fires ==> {
                &&& final(self).trigger_count == old(self).trigger_count + 1
                &&& final(self).last_trigger_time == now_ns
                &&& final(self).cooldown_until == now_ns + cooldown_ms * 1_000_000
            },
            !fires ==> {
                &&& final(self).trigger_count == old(self).trigger_count
                &&& final(self).last_trigger_time == old(self).last_trigger_time
                &&& final(self).cooldown_until == old(self).cooldown_until
            },
    {
        if fires {
            self.trigger_count = self.trigger_count + 1;
            self.last_trigger_time = now_ns;
            self.cooldown_until = now_ns + cooldown_ms * 1_000_000;
            self.state = GateState::Triggered;
        } else if self.state == GateState::Triggered {
            self.state = GateState::Recovering;
        } else {
            self.state = GateState::Idle;
        }
        self.state
    }
}

} // verus!
