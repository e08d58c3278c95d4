//! The decisions of one run: when to stop the programs, whom to attach to,
//! when to give up.

use vstd::prelude::*;

verus! {

/// How many interrupts are borne before the run ends at once.
pub const MAX_INTERRUPTS: u32 = 3;

/// How often the run was interrupted.
#[derive(Debug, Clone, Copy, PartialEq, Eq, Structural)]
pub struct Interrupts {
    pub count: u32,
}

impl Interrupts {
    /// No interrupt yet.
    pub fn new() -> (r: Interrupts)
        ensures
            r.count == 0,
    {
        Interrupts { count: 0 }
    }

    /// Whether the run was interrupted at all.
    pub fn interrupted(&self) -> (r: bool)
        ensures
            r == (self.count > 0),
    {
        self.count > 0
    }

    /// Counts one more interrupt. Returns whether the run has to end at
    /// once: after more than `MAX_INTERRUPTS` of them.
    pub fn set_interrupted(&mut self) -> (r: bool)
        ensures
            final(self).count == if old(self).count < u32::MAX {
                (old(self).count + 1) as u32
            } else {
                u32::MAX
            },
            r == (final(self).count > MAX_INTERRUPTS),
    {
        self.count = self.count.saturating_add(1);
        self.count > MAX_INTERRUPTS
    }
}

/// Whether the watchdog has waited long enough: `current` seconds have
/// passed of the `time` allowed.
pub fn timeout_reached(current: u32, time: u32) -> (r: bool)
    ensures
        r == (current >= time),
{
    current >= time
}

/// Whether it is time to stop the programs and take the snapshot: one of
/// them no longer runs, or the run was interrupted.
pub fn must_stop(all_running: bool, interrupted: bool) -> (r: bool)
    ensures
        r == (!all_running || interrupted),
{
    !all_running || interrupted
}

/// The address of the root to attach to: the one given on the command
/// line, else the one found in the environment, else none.
pub fn pick_root_server(flag: Option<String>, env: Option<String>) -> (r: Option<String>)
    ensures
        r == match flag {
            Some(root) => Some(root),
            None => env,
        },
{
    match flag {
        Some(root) => Some(root),
        None => env,
    }
}

} // verus!
