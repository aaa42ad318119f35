//! The actuator interface: the two commands that drive the fans, how their
//! outcome is judged, and what the main loop asks for in live and in shadow
//! mode.

use crate::command::{texts, Invocation};
use crate::error::{ActuatorFault, ActuatorFaultView, ControlError, FanOperation, Fault};
use crate::metrics::{metric_line, opt_text, pair_texts, report_metric, MetricEvent};
use crate::text::utf8_text;
use vstd::prelude::*;
use vstd::utf8::{decode_utf8, valid_utf8};

verus! {

/// What the main loop is to do for one actuator operation.
#[derive(Debug, Clone, PartialEq, Eq)]
pub struct FanRequest {
    /// The telemetry sample to submit, if any.
    pub sample: Option<MetricEvent>,
    /// The arguments to run the platform management tool with, if it is to
    /// be run.
    pub command: Option<Vec<String>>,
}

/// The character that writes the hexadecimal digit `d`, in lower case.
pub open spec fn hex_digit(d: nat) -> char {
    if d < 10 {
        (0x30 + d) as u8 as char
    } else {
        (0x61 + d - 10) as u8 as char
    }
}

/// `n` written as `0x` and two hexadecimal digits.
pub open spec fn hex_byte(n: nat) -> Seq<char> {
    seq!['0', 'x', hex_digit(n / 16), hex_digit(n % 16)]
}

/// The arguments that switch manual fan control on or off.
pub open spec fn manual_args(manual: bool) -> Seq<Seq<char>> {
    seq![
        "raw"@,
        "0x30"@,
        "0x30"@,
        "0x01"@,
        if manual {
            "0x00"@
        } else {
            "0x01"@
        },
    ]
}

/// The arguments that set all fans to `percent` percent of their speed.
pub open spec fn speed_args(percent: nat) -> Seq<Seq<char>> {
    seq!["raw"@, "0x30"@, "0x30"@, "0x02"@, "0xff"@, hex_byte(percent)]
}

/// `percent`, or 100 where it is more.
pub open spec fn clamped_percent(percent: u8) -> nat {
    if percent > 100 {
        100
    } else {
        percent as nat
    }
}

/// What the command printed, as its failure report shows it.
pub open spec fn shown_output(stdout: Seq<u8>) -> Seq<char> {
    if valid_utf8(stdout) {
        decode_utf8(stdout)
    } else {
        "Invalid UTF-8"@
    }
}

/// The fault of an actuator command that ended as `outcome` says, if it has
/// one.
pub open spec fn actuator_fault(outcome: Invocation) -> Option<ActuatorFaultView> {
    match outcome {
        Invocation::Failed => Some(ActuatorFaultView::NotInvocable),
        Invocation::Finished(out) => if out.success {
            None
        } else {
            Some(
                ActuatorFaultView::Exit {
                    code: match out.code {
                        Some(c) => c,
                        None => -1i32,
                    },
                    output: shown_output(out.stdout@),
                },
            )
        },
    }
}

/// The sample of the single field `name` with the value `value`.
pub open spec fn plain_sample(hostname: Option<Seq<char>>, name: Seq<char>, value: Seq<char>) -> Seq<
    char,
> {
    metric_line(hostname, Seq::empty(), seq![(name, value)])
}

/// The arguments that switch manual fan control on or off.
pub fn fan_manual_command(manual: bool) -> (args: Vec<String>)
    ensures
        texts(args@) == manual_args(manual),
{
    let mut args: Vec<String> = Vec::new();
    args.push("raw".to_owned());
    args.push("0x30".to_owned());
    args.push("0x30".to_owned());
    args.push("0x01".to_owned());
    if manual {
        args.push("0x00".to_owned());
    } else {
        args.push("0x01".to_owned());
    }
    assert(texts(args@) =~= manual_args(manual));
    args
}

/// The hexadecimal digit `d`.
fn hex_digit_char(d: u8) -> (c: char)
    requires
        d < 16,
    ensures
        c == hex_digit(d as nat),
{
    if d < 10 {
        (0x30 + d) as char
    } else {
        (0x61 + d - 10) as char
    }
}

/// The arguments that set all fans to `percent` percent of their speed; a
/// value above 100 counts as 100.
pub fn fan_speed_command(percent: u8) -> (args: Vec<String>)
    ensures
        texts(args@) == speed_args(clamped_percent(percent)),
{
    let scale: u8 = if percent > 100 {
        100
    } else {
        percent
    };
    let mut hex = String::new();
    hex.push('0');
    hex.push('x');
    hex.push(hex_digit_char(scale / 16));
    hex.push(hex_digit_char(scale % 16));
    assert(hex@ =~= hex_byte(scale as nat));
    let mut args: Vec<String> = Vec::new();
    args.push("raw".to_owned());
    args.push("0x30".to_owned());
    args.push("0x30".to_owned());
    args.push("0x02".to_owned());
    args.push("0xff".to_owned());
    args.push(hex);
    assert(texts(args@) =~= speed_args(clamped_percent(percent)));
    args
}

/// Judges how an actuator command ended: it took effect where it ran and
/// ended with success. Otherwise the error names the operation and holds the
/// exit code and what the command printed.
pub fn actuator_result(operation: FanOperation, outcome: &Invocation) -> (r: Result<
    (),
    ControlError,
>)
    ensures
        match r {
            Ok(_) => actuator_fault(*outcome) is None,
            Err(e) => actuator_fault(*outcome) matches Some(fault) && e@ == (Fault::ActuatorFailed {
                operation,
                fault,
            }),
        },
{
    match outcome {
        Invocation::Failed => Err(
            ControlError::ActuatorFailed { operation, fault: ActuatorFault::NotInvocable },
        ),
        Invocation::Finished(out) => {
            if out.success {
                Ok(())
            } else {
                let code: i32 = match out.code {
                    Some(c) => c,
                    None => -1,
                };
                let output = match utf8_text(out.stdout.as_slice()) {
                    Some(text) => text.to_owned(),
                    None => "Invalid UTF-8".to_owned(),
                };
                Err(
                    ControlError::ActuatorFailed {
                        operation,
                        fault: ActuatorFault::Exit { code, output },
                    },
                )
            }
        },
    }
}

/// The sample of the single field `name` with the value `value`.
fn sample_of(name: &str, value: &str, hostname: Option<&str>) -> (r: MetricEvent)
    ensures
        r matches MetricEvent::Metric(line) && line@ == plain_sample(
            opt_text(hostname),
            name@,
            value@,
        ),
{
    let mut fields: Vec<(String, String)> = Vec::new();
    fields.push((name.to_owned(), value.to_owned()));
    let tags: Vec<(String, String)> = Vec::new();
    assert(pair_texts(fields@) =~= seq![(name@, value@)]);
    assert(pair_texts(tags@) =~= Seq::<(Seq<char>, Seq<char>)>::empty());
    report_metric(fields.as_slice(), tags.as_slice(), hostname)
}

/// What is to be done to switch manual fan control on or off.
///
/// With `report`, the mode is submitted as the telemetry field
/// `manual control`, 1 for manual and 0 for automatic. In shadow mode no
/// command is run.
pub fn set_fan_manual(manual: bool, shadow: bool, report: bool, hostname: Option<&str>) -> (r:
    FanRequest)
    ensures
        match r.sample {
            Some(MetricEvent::Metric(line)) => report && line@ == plain_sample(
                opt_text(hostname),
                "manual control"@,
                if manual {
                    "1"@
                } else {
                    "0"@
                },
            ),
            Some(MetricEvent::Exit) => false,
            None => !report,
        },
        match r.command {
            Some(args) => !shadow && texts(args@) == manual_args(manual),
            None => shadow,
        },
{
    let sample = if report {
        Some(
            sample_of(
                "manual control",
                if manual {
                    "1"
                } else {
                    "0"
                },
                hostname,
            ),
        )
    } else {
        None
    };
    let command = if shadow {
        None
    } else {
        Some(fan_manual_command(manual))
    };
    FanRequest { sample, command }
}

/// What is to be done to set the fans to `percent` percent of their speed.
///
/// The speed is submitted as the telemetry field `fan speed`, written as
/// `speed` gives it. In shadow mode no command is run.
pub fn set_fan_speed(speed: &str, percent: u8, shadow: bool, hostname: Option<&str>) -> (r:
    FanRequest)
    ensures
        r.sample matches Some(MetricEvent::Metric(line)) && line@ == plain_sample(
            opt_text(hostname),
            "fan speed"@,
            speed@,
        ),
        match r.command {
            Some(args) => !shadow && texts(args@) == speed_args(clamped_percent(percent)),
            None => shadow,
        },
{
    let sample = Some(sample_of("fan speed", speed, hostname));
    let command = if shadow {
        None
    } else {
        Some(fan_speed_command(percent))
    };
    FanRequest { sample, command }
}

} // verus!
