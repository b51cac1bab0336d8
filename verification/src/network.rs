use vstd::prelude::*;

verus! {

/// A simulated network condition: the external command that applies it, and
/// the latency/loss/rate parameters recorded for reporting.
///
/// The parameters are descriptive metadata; only the command is executed, by
/// unverified code. The profile is applied once at run start and cleared once
/// at run end, with an idempotent clear before the apply so a crashed prior
/// run cannot poison a new one.
#[derive(Clone, Debug)]
pub struct NetworkSetup {
    /// The shell command that applies the profile.
    pub cmd: String,
    /// Added one-way delay, in milliseconds.
    pub delay_ms: u64,
    /// Packet loss, in percent.
    pub loss_pct: u64,
    /// Bandwidth cap, in megabits per second.
    pub rate_mbit: u64,
}

impl NetworkSetup {
    /// A profile for the given apply command, with the parameter values the
    /// stock scripts use: 50 ms delay, 0 % loss, 20 Mbit/s.
    pub fn new(cmd: String) -> (r: NetworkSetup)
        ensures
            r.cmd@ == cmd@,
            r.delay_ms == 50,
            r.loss_pct == 0,
            r.rate_mbit == 20,
    {
        NetworkSetup { cmd, delay_ms: 50, loss_pct: 0, rate_mbit: 20 }
    }
}

} // verus!
