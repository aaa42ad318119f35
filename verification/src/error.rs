//! The closed set of conditions that abort a control cycle.

use vstd::prelude::*;

verus! {

/// Why a poll of the sensors gave no usable answer.
#[derive(Debug, Clone, Copy, PartialEq, Eq, Structural)]
pub enum AcquisitionFault {
    /// The listing command could not be started.
    NotInvocable,
    /// The listing command wrote bytes that are not UTF-8 text.
    InvalidUtf8,
    /// The listing command ended with a status other than success.
    NonZeroExit,
}

/// Which of the two actuator operations a command stands for.
#[derive(Debug, Clone, Copy, PartialEq, Eq, Structural)]
pub enum FanOperation {
    /// Switching between manual and automatic fan control.
    ManualMode,
    /// Setting the fan speed.
    Speed,
}

/// Why an actuator command did not take effect.
#[derive(Debug, Clone, PartialEq, Eq)]
pub enum ActuatorFault {
    /// The command could not be started.
    NotInvocable,
    /// The command ended with a status other than success. `code` is -1
    /// where it gave no exit code; `output` is what it printed.
    Exit { code: i32, output: String },
}

/// A condition that aborts the current control cycle.
#[derive(Debug, Clone, PartialEq, Eq)]
pub enum ControlError {
    /// The named point got no reading in this cycle.
    SensorUnset { name: String },
    /// The named point got a reading whose number could not be read.
    SensorInvalid { name: String },
    /// The named point watches a temperature and its sensor reported a
    /// rotation speed.
    SensorKindMismatch { name: String, rpm: u32 },
    /// The named point measured a temperature at or above its threshold.
    FailsafeTripped { name: String, measured: i32, threshold: i64 },
    /// The sensors could not be polled.
    AcquisitionFailed { fault: AcquisitionFault },
    /// An actuator command did not take effect.
    ActuatorFailed { operation: FanOperation, fault: ActuatorFault },
}

/// An actuator fault as the contracts see it.
pub enum ActuatorFaultView {
    NotInvocable,
    Exit { code: i32, output: Seq<char> },
}

/// An aborting condition as the contracts see it.
pub enum Fault {
    SensorUnset { name: Seq<char> },
    SensorInvalid { name: Seq<char> },
    SensorKindMismatch { name: Seq<char>, rpm: u32 },
    FailsafeTripped { name: Seq<char>, measured: i32, threshold: i64 },
    AcquisitionFailed { fault: AcquisitionFault },
    ActuatorFailed { operation: FanOperation, fault: ActuatorFaultView },
}

impl View for ActuatorFault {
    type V = ActuatorFaultView;

    open spec fn view(&self) -> ActuatorFaultView {
        match *self {
            ActuatorFault::NotInvocable => ActuatorFaultView::NotInvocable,
            ActuatorFault::Exit { code, output } => ActuatorFaultView::Exit {
                code,
                output: output@,
            },
        }
    }
}

impl View for ControlError {
    type V = Fault;

    open spec fn view(&self) -> Fault {
        match *self {
            ControlError::SensorUnset { name } => Fault::SensorUnset { name: name@ },
            ControlError::SensorInvalid { name } => Fault::SensorInvalid { name: name@ },
            ControlError::SensorKindMismatch { name, rpm } => Fault::SensorKindMismatch {
                name: name@,
                rpm,
            },
            ControlError::FailsafeTripped { name, measured, threshold } => Fault::FailsafeTripped {
                name: name@,
                measured,
                threshold,
            },
            ControlError::AcquisitionFailed { fault } => Fault::AcquisitionFailed { fault },
            ControlError::ActuatorFailed { operation, fault } => Fault::ActuatorFailed {
                operation,
                fault: fault@,
            },
        }
    }
}

} // verus!
