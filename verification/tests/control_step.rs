use thermal_watchdog::command::{CommandOutput, Invocation};
use thermal_watchdog::control::{temperature_sample, ControlLoop, StepEffect, StepPlan};
use thermal_watchdog::error::{AcquisitionFault, ControlError};
use thermal_watchdog::ipmi::IPMIValue;
use thermal_watchdog::metrics::MetricEvent;

fn listing(text: &str) -> Invocation {
    Invocation::Finished(CommandOutput {
        success: true,
        code: Some(0),
        stdout: text.as_bytes().to_vec(),
    })
}

fn three_points() -> ControlLoop {
    let mut control = ControlLoop::new();
    control.add_control("Exhaust Temp".to_string(), 60);
    control.add_control("Temp".to_string(), 65);
    control.add_control("Temp".to_string(), 65);
    control
}

fn report(tag: &str, temp: i32) -> StepEffect {
    StepEffect::ReportTemperature { tag: tag.to_string(), temp }
}

fn run(index: usize, tag: &str, temp: i32) -> StepEffect {
    StepEffect::RunController { index, tag: tag.to_string(), temp }
}

fn statuses(control: &ControlLoop) -> Vec<IPMIValue> {
    control.requests().iter().map(|r| r.status).collect()
}

#[test]
fn a_new_loop_has_no_points_and_an_empty_plan() {
    let mut control = ControlLoop::new();
    assert_eq!(control.len(), 0);
    assert_eq!(control.failsafe(0), None);
    assert_eq!(control.evaluate(), StepPlan { effects: vec![], failure: None });
    assert_eq!(control.step(&listing("Temp | 45 degrees C\n")), StepPlan { effects: vec![], failure: None });
}

#[test]
fn points_are_kept_in_registration_order() {
    let control = three_points();
    assert_eq!(control.len(), 3);
    let names: Vec<&str> = control.requests().iter().map(|r| r.name.as_str()).collect();
    assert_eq!(names, vec!["Exhaust Temp", "Temp", "Temp"]);
    assert_eq!(statuses(&control), vec![IPMIValue::Unknown; 3]);
    assert_eq!(control.failsafe(0), Some(60));
    assert_eq!(control.failsafe(2), Some(65));
    assert_eq!(control.failsafe(3), None);
}

#[test]
fn all_points_below_their_thresholds_are_controlled() {
    let mut control = three_points();
    let text = "Exhaust Temp | 42 degrees C | ok\nTemp | 50 degrees C | ok\nTemp | 58 degrees C | ok\n";
    let plan = control.step(&listing(text));
    assert_eq!(plan.failure, None);
    assert_eq!(
        plan.effects,
        vec![
            report("Exhaust Temp(0)", 42),
            run(0, "Exhaust Temp(0)", 42),
            report("Temp(1)", 50),
            run(1, "Temp(1)", 50),
            report("Temp(2)", 58),
            run(2, "Temp(2)", 58),
        ]
    );
    assert_eq!(
        statuses(&control),
        vec![IPMIValue::Temp(42), IPMIValue::Temp(50), IPMIValue::Temp(58)]
    );
}

#[test]
fn a_tripped_failsafe_aborts_before_its_controller_runs() {
    let mut control = three_points();
    let text = "Exhaust Temp | 61 degrees C | ok\nTemp | 50 degrees C | ok\nTemp | 58 degrees C | ok\n";
    let plan = control.step(&listing(text));
    assert_eq!(
        plan.failure,
        Some(ControlError::FailsafeTripped {
            name: "Exhaust Temp".to_string(),
            measured: 61,
            threshold: 60
        })
    );
    assert_eq!(plan.effects, vec![report("Exhaust Temp(0)", 61)]);
}

#[test]
fn a_temperature_at_the_threshold_trips_it() {
    let mut control = three_points();
    let text = "Exhaust Temp | 59 degrees C\nTemp | 65 degrees C\nTemp | 20 degrees C\n";
    let plan = control.step(&listing(text));
    assert_eq!(
        plan.failure,
        Some(ControlError::FailsafeTripped { name: "Temp".to_string(), measured: 65, threshold: 65 })
    );
    assert_eq!(
        plan.effects,
        vec![report("Exhaust Temp(0)", 59), run(0, "Exhaust Temp(0)", 59), report("Temp(1)", 65)]
    );
}

#[test]
fn the_points_before_a_failure_are_controlled_and_none_after() {
    let mut control = three_points();
    let text = "Exhaust Temp | 42 degrees C\nTemp | 50 degrees C\nTemp | 70 degrees C\n";
    let plan = control.step(&listing(text));
    assert_eq!(
        plan.failure,
        Some(ControlError::FailsafeTripped { name: "Temp".to_string(), measured: 70, threshold: 65 })
    );
    assert_eq!(
        plan.effects,
        vec![
            report("Exhaust Temp(0)", 42),
            run(0, "Exhaust Temp(0)", 42),
            report("Temp(1)", 50),
            run(1, "Temp(1)", 50),
            report("Temp(2)", 70),
        ]
    );
}

#[test]
fn a_point_without_reading_aborts_the_step() {
    let mut control = three_points();
    let text = "Exhaust Temp | 42 degrees C\nTemp | 50 degrees C\n";
    let plan = control.step(&listing(text));
    assert_eq!(plan.failure, Some(ControlError::SensorUnset { name: "Temp".to_string() }));
    assert_eq!(plan.effects.len(), 4);
}

#[test]
fn an_unreadable_reading_aborts_the_step() {
    let mut control = three_points();
    let text = "Exhaust Temp | hot degrees C\nTemp | 50 degrees C\nTemp | 50 degrees C\n";
    let plan = control.step(&listing(text));
    assert_eq!(plan.failure, Some(ControlError::SensorInvalid { name: "Exhaust Temp".to_string() }));
    assert_eq!(plan.effects, vec![]);
}

#[test]
fn a_rotation_speed_on_a_watched_point_aborts_the_step() {
    let mut control = three_points();
    let text = "Exhaust Temp | 42 degrees C\nTemp | 4500 RPM\nTemp | 50 degrees C\n";
    let plan = control.step(&listing(text));
    assert_eq!(
        plan.failure,
        Some(ControlError::SensorKindMismatch { name: "Temp".to_string(), rpm: 4500 })
    );
    assert_eq!(plan.effects, vec![report("Exhaust Temp(0)", 42), run(0, "Exhaust Temp(0)", 42)]);
}

#[test]
fn the_first_failing_point_decides_the_error() {
    let mut control = three_points();
    let text = "Exhaust Temp | 99 degrees C\nTemp | bad degrees C\n";
    let plan = control.step(&listing(text));
    assert_eq!(
        plan.failure,
        Some(ControlError::FailsafeTripped {
            name: "Exhaust Temp".to_string(),
            measured: 99,
            threshold: 60
        })
    );
}

#[test]
fn a_failed_poll_aborts_the_step_before_any_point() {
    let mut control = three_points();
    let plan = control.step(&Invocation::Failed);
    assert_eq!(
        plan,
        StepPlan {
            effects: vec![],
            failure: Some(ControlError::AcquisitionFailed { fault: AcquisitionFault::NotInvocable })
        }
    );
    let failed = Invocation::Finished(CommandOutput {
        success: false,
        code: Some(1),
        stdout: b"Exhaust Temp | 42 degrees C\nTemp | 50 degrees C\nTemp | 58 degrees C\n".to_vec(),
    });
    let plan = control.step(&failed);
    assert_eq!(
        plan,
        StepPlan {
            effects: vec![],
            failure: Some(ControlError::AcquisitionFailed { fault: AcquisitionFault::NonZeroExit })
        }
    );
    assert_eq!(
        statuses(&control),
        vec![IPMIValue::Temp(42), IPMIValue::Temp(50), IPMIValue::Temp(58)]
    );
}

#[test]
fn each_step_starts_from_fresh_readings() {
    let mut control = three_points();
    let full = "Exhaust Temp | 42 degrees C\nTemp | 50 degrees C\nTemp | 58 degrees C\n";
    assert_eq!(control.step(&listing(full)).failure, None);
    let plan = control.step(&listing("Temp | 50 degrees C\n"));
    assert_eq!(plan.failure, Some(ControlError::SensorUnset { name: "Exhaust Temp".to_string() }));
    assert_eq!(
        statuses(&control),
        vec![IPMIValue::Unknown, IPMIValue::Temp(50), IPMIValue::Unknown]
    );
}

#[test]
fn evaluate_decides_from_the_readings_held() {
    let mut control = three_points();
    let full = "Exhaust Temp | 42 degrees C\nTemp | 50 degrees C\nTemp | 58 degrees C\n";
    let plan = control.step(&listing(full));
    assert_eq!(control.evaluate(), plan);
    assert_eq!(control.evaluate(), plan);
}

#[test]
fn thresholds_beyond_every_temperature_never_trip_or_always_trip() {
    let mut control = ControlLoop::new();
    control.add_control("A".to_string(), i64::MAX);
    control.add_control("B".to_string(), i64::MIN);
    let plan = control.step(&listing("A | 2147483647 degrees C\nB | -2147483648 degrees C\n"));
    assert_eq!(
        plan.effects,
        vec![report("A(0)", i32::MAX), run(0, "A(0)", i32::MAX), report("B(1)", i32::MIN)]
    );
    assert_eq!(
        plan.failure,
        Some(ControlError::FailsafeTripped {
            name: "B".to_string(),
            measured: i32::MIN,
            threshold: i64::MIN
        })
    );
}

#[test]
fn tags_count_points_in_decimal() {
    let mut control = ControlLoop::new();
    let mut text = String::new();
    for _ in 0..12 {
        control.add_control("T".to_string(), 100);
        text.push_str("T | 20 degrees C\n");
    }
    let plan = control.step(&listing(&text));
    assert_eq!(plan.failure, None);
    assert_eq!(plan.effects.len(), 24);
    assert_eq!(plan.effects[18], report("T(9)", 20));
    assert_eq!(plan.effects[21], run(10, "T(10)", 20));
    assert_eq!(plan.effects[23], run(11, "T(11)", 20));
}

#[test]
fn temperature_samples_are_written_in_the_line_protocol() {
    assert_eq!(
        temperature_sample("Exhaust Temp(0)", 42, None),
        MetricEvent::Metric("thermal_watchdog,sensor=Exhaust\\ Temp(0) temp=42".to_string())
    );
    assert_eq!(
        temperature_sample("Temp(1)", -7, Some("node1")),
        MetricEvent::Metric("thermal_watchdog,hostname=node1,sensor=Temp(1) temp=-7".to_string())
    );
}
