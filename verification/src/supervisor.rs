//! The policy of the main loop: which actuator command follows the outcome
//! of a control cycle, and what follows the outcome of a command.

use vstd::prelude::*;

verus! {

/// An actuator command that the main loop is asked to issue.
#[derive(Debug, Clone, Copy, PartialEq, Eq, Structural)]
pub enum Command {
    /// Switch the fans to manual control.
    TakeControl,
    /// Set the fan speed to the command of this cycle.
    SetSpeed,
    /// Hand the fans back to the platform's automatic control.
    ReleaseControl,
}

/// The main loop between two control cycles.
#[derive(Debug, Clone, Copy, PartialEq, Eq, Structural)]
pub struct Supervisor {
    /// Whether the fans are under manual control.
    pub manual: bool,
}

/// The main loop while a command is outstanding.
#[derive(Debug, Clone, Copy, PartialEq, Eq, Structural)]
pub struct Pending {
    /// Whether the fans were under manual control before the command.
    pub manual: bool,
    /// The command to issue.
    pub command: Command,
}

/// What follows a command.
#[derive(Debug, Clone, Copy, PartialEq, Eq, Structural)]
pub enum Next {
    /// One more command is to be issued in this cycle.
    Issue(Pending),
    /// The cycle is over; the next one may start.
    Done(Supervisor),
    /// The actuator failed. One attempt is owed to hand the fans back to
    /// automatic control; then the process ends with a failure status.
    Shutdown,
}

/// The command that follows a control cycle: a cycle that was aborted gives
/// the fans back, whatever their mode; a cycle with a fan command first takes
/// control where it is not taken yet.
pub open spec fn command_after_step(manual: bool, succeeded: bool) -> Command {
    if !succeeded {
        Command::ReleaseControl
    } else if manual {
        Command::SetSpeed
    } else {
        Command::TakeControl
    }
}

/// What follows the command of `pending`. A failed command ends the loop.
/// Taking control is followed by the speed command, in manual mode; the
/// speed command ends the cycle; giving the fans back ends the cycle in
/// automatic mode.
pub open spec fn next_after_command(pending: Pending, succeeded: bool) -> Next {
    if !succeeded {
        Next::Shutdown
    } else {
        match pending.command {
            Command::TakeControl => Next::Issue(
                Pending { manual: true, command: Command::SetSpeed },
            ),
            Command::SetSpeed => Next::Done(Supervisor { manual: pending.manual }),
            Command::ReleaseControl => Next::Done(Supervisor { manual: false }),
        }
    }
}

impl Supervisor {
    /// The main loop at its start: the fans are under automatic control.
    pub fn new() -> (r: Supervisor)
        ensures
            r == (Supervisor { manual: false }),
    {
        Supervisor { manual: false }
    }

    /// Takes in whether the control cycle gave a fan command.
    pub fn after_step(self, succeeded: bool) -> (r: Pending)
        ensures
            r == (Pending {
                manual: self.manual,
                command: command_after_step(self.manual, succeeded),
            }),
    {
        let command = if !succeeded {
            Command::ReleaseControl
        } else if self.manual {
            Command::SetSpeed
        } else {
            Command::TakeControl
        };
        Pending { manual: self.manual, command }
    }
}

impl Pending {
    /// Takes in whether the command took effect.
    pub fn after_command(self, succeeded: bool) -> (r: Next)
        ensures
            r == next_after_command(self, succeeded),
    {
        if !succeeded {
            Next::Shutdown
        } else {
            match self.command {
                Command::TakeControl => Next::Issue(
                    Pending { manual: true, command: Command::SetSpeed },
                ),
                Command::SetSpeed => Next::Done(Supervisor { manual: self.manual }),
                Command::ReleaseControl => Next::Done(Supervisor { manual: false }),
            }
        }
    }
}

/// No speed command follows an aborted cycle, and none is issued while the
/// fans are under automatic control: the speed is set only after a cycle
/// that gave a fan command, in manual mode or right after control was taken.
pub proof fn lemma_speed_only_under_control(s: Supervisor, step_succeeded: bool, taken: bool)
    ensures
        ({
            let first = Pending {
                manual: s.manual,
                command: command_after_step(s.manual, step_succeeded),
            };
            &&& first.command == Command::SetSpeed ==> step_succeeded && s.manual
            &&& next_after_command(first, taken) matches Next::Issue(second) ==> step_succeeded
                && taken && second.manual && second.command == Command::SetSpeed
        }),
{
}

} // verus!
