//! The control loop: the registered points, and what one cycle decides from
//! their readings.

use crate::command::Invocation;
use crate::error::{ControlError, Fault};
use crate::ipmi::{
    get_ipmi_values, lemma_polled_keeps_names, poll_fault, polled, readings, IPMIRequest,
    IPMIValue, Reading,
};
use crate::metrics::{metric_line, opt_text, pair_texts, report_metric, MetricEvent};
use crate::search::{first_where, lemma_first_where, lemma_first_where_is};
use crate::text::{decimal, push_decimal, push_signed_decimal, signed_decimal};
use vstd::prelude::*;

verus! {

/// The registered points with their failsafe thresholds and their readings.
pub struct ControlLoop {
    pvs: Vec<IPMIRequest>,
    failsafes: Vec<i64>,
}

/// A monitored point as the contracts see it: its name, the temperature at
/// or above which it is unsafe, and its reading of the current cycle.
pub struct MonitoredPoint {
    pub name: Seq<char>,
    pub failsafe: i64,
    pub status: IPMIValue,
}

/// One thing that a cycle asks of its surroundings.
#[derive(Debug, Clone, PartialEq, Eq)]
pub enum StepEffect {
    /// Submit the raw temperature of the point tagged `tag` as telemetry.
    ReportTemperature { tag: String, temp: i32 },
    /// Run the feedback controller of point `index` on `temp`; `tag` names
    /// the point in the controller's telemetry.
    RunController { index: usize, tag: String, temp: i32 },
}

impl View for ControlLoop {
    type V = Seq<MonitoredPoint>;

    closed spec fn view(&self) -> Seq<MonitoredPoint> {
        Seq::new(
            self.pvs@.len(),
            |i: int|
                MonitoredPoint {
                    name: self.pvs@[i].name@,
                    failsafe: self.failsafes@[i],
                    status: self.pvs@[i].status,
                },
        )
    }
}

/// What a cycle asks of its surroundings, as the contracts see it.
pub enum Effect {
    ReportTemperature { tag: Seq<char>, temp: i32 },
    RunController { index: int, tag: Seq<char>, temp: i32 },
}

impl View for StepEffect {
    type V = Effect;

    open spec fn view(&self) -> Effect {
        match *self {
            StepEffect::ReportTemperature { tag, temp } => Effect::ReportTemperature {
                tag: tag@,
                temp,
            },
            StepEffect::RunController { index, tag, temp } => Effect::RunController {
                index: index as int,
                tag: tag@,
                temp,
            },
        }
    }
}

/// What one cycle decided: the effects to carry out, in their order, and the
/// condition that aborts the cycle after them, if any.
#[derive(Debug, Clone, PartialEq, Eq)]
pub struct StepPlan {
    pub effects: Vec<StepEffect>,
    pub failure: Option<ControlError>,
}

/// The effects held by `effects`, in their order.
pub open spec fn effect_views(effects: Seq<StepEffect>) -> Seq<Effect> {
    effects.map_values(|e: StepEffect| e@)
}

/// The aborting condition held by `failure`, if any.
pub open spec fn failure_view(failure: Option<ControlError>) -> Option<Fault> {
    match failure {
        Some(e) => Some(e@),
        None => None,
    }
}

/// The readings of `points`, in their order.
pub open spec fn readings_of(points: Seq<MonitoredPoint>) -> Seq<Reading> {
    points.map_values(|p: MonitoredPoint| Reading { name: p.name, status: p.status })
}

/// `points` with the statuses of `rs` in place of their own.
pub open spec fn with_statuses(points: Seq<MonitoredPoint>, rs: Seq<Reading>) -> Seq<
    MonitoredPoint,
> {
    Seq::new(
        points.len(),
        |i: int|
            MonitoredPoint {
                name: points[i].name,
                failsafe: points[i].failsafe,
                status: rs[i].status,
            },
    )
}

/// The name under which point `index` appears in telemetry: its name and,
/// in brackets, its position, which tells points of one name apart.
pub open spec fn point_tag(name: Seq<char>, index: nat) -> Seq<char> {
    name + seq!['('] + decimal(index) + seq![')']
}

/// The condition that point `p` aborts the cycle with, if it does.
pub open spec fn point_fault(p: MonitoredPoint) -> Option<Fault> {
    match p.status {
        IPMIValue::Unknown => Some(Fault::SensorUnset { name: p.name }),
        IPMIValue::Invalid => Some(Fault::SensorInvalid { name: p.name }),
        IPMIValue::RPM(rpm) => Some(Fault::SensorKindMismatch { name: p.name, rpm }),
        IPMIValue::Temp(t) => if t >= p.failsafe {
            Some(Fault::FailsafeTripped { name: p.name, measured: t, threshold: p.failsafe })
        } else {
            None
        },
    }
}

/// The temperature that `status` holds; 0 where it holds none.
pub open spec fn temperature(status: IPMIValue) -> i32 {
    match status {
        IPMIValue::Temp(t) => t,
        _ => 0,
    }
}

/// The property of a point that aborts the cycle.
pub open spec fn faulty() -> spec_fn(MonitoredPoint) -> bool {
    |p: MonitoredPoint| point_fault(p) is Some
}

/// The position of the first point that aborts the cycle, or `points.len()`
/// where none does.
pub open spec fn first_faulty(points: Seq<MonitoredPoint>) -> int {
    first_where(points, faulty())
}

/// The effects of the first `n` points, in registration order: for each its
/// temperature is reported and its controller is run.
pub open spec fn controlled_effects(points: Seq<MonitoredPoint>, n: int) -> Seq<Effect>
    decreases n,
{
    if n <= 0 {
        Seq::empty()
    } else {
        let i = n - 1;
        let tag = point_tag(points[i].name, i as nat);
        let temp = temperature(points[i].status);
        controlled_effects(points, i).push(Effect::ReportTemperature { tag, temp }).push(
            Effect::RunController { index: i, tag, temp },
        )
    }
}

/// The effects of a cycle over `points`: those of the points before the
/// first that aborts the cycle, and the report of that point's temperature
/// where it has one.
pub open spec fn step_effects(points: Seq<MonitoredPoint>) -> Seq<Effect> {
    let k = first_faulty(points);
    let run = controlled_effects(points, k);
    if k < points.len() && points[k].status is Temp {
        run.push(
            Effect::ReportTemperature {
                tag: point_tag(points[k].name, k as nat),
                temp: temperature(points[k].status),
            },
        )
    } else {
        run
    }
}

/// The condition that aborts a cycle over `points`: that of the first point
/// that has one.
pub open spec fn step_failure(points: Seq<MonitoredPoint>) -> Option<Fault> {
    let k = first_faulty(points);
    if k < points.len() {
        point_fault(points[k])
    } else {
        None
    }
}

/// The effects of the first `n` points come in pairs, and the pair of point
/// `i` names that point.
pub proof fn lemma_controlled_effects(points: Seq<MonitoredPoint>, n: int)
    requires
        0 <= n,
    ensures
        controlled_effects(points, n).len() == 2 * n,
        forall|j: int|
            0 <= j < 2 * n ==> (#[trigger] controlled_effects(points, n)[j]
                matches Effect::RunController { index, .. } ==> index == j / 2 && index < n),
    decreases n,
{
    if n > 0 {
        lemma_controlled_effects(points, n - 1);
    }
}

/// Failsafe precedence: where point `k` measured a temperature at or above
/// its threshold, the cycle is aborted and the controller of point `k` is
/// not run, nor that of any point after it.
pub proof fn lemma_failsafe_precedence(points: Seq<MonitoredPoint>, k: int)
    requires
        0 <= k < points.len(),
        points[k].status is Temp,
        temperature(points[k].status) >= points[k].failsafe,
    ensures
        step_failure(points) is Some,
        forall|j: int|
            0 <= j < step_effects(points).len() ==> (#[trigger] step_effects(points)[j]
                matches Effect::RunController { index, .. } ==> index < k),
{
    lemma_first_where(points, faulty());
    let f = first_faulty(points);
    assert(point_fault(points[k]) is Some);
    assert(f <= k);
    lemma_controlled_effects(points, f);
}

/// A cycle is aborted exactly where some point aborts it. A cycle that is
/// not aborted reports the temperature and runs the controller of every
/// point, in registration order.
pub proof fn lemma_step_outcome(points: Seq<MonitoredPoint>)
    ensures
        step_failure(points) is Some <==> exists|i: int|
            0 <= i < points.len() && point_fault(#[trigger] points[i]) is Some,
        step_failure(points) is None ==> step_effects(points) == controlled_effects(
            points,
            points.len() as int,
        ),
{
    lemma_first_where(points, faulty());
}

/// The telemetry name of point `index`.
fn make_tag(name: &String, index: usize) -> (tag: String)
    ensures
        tag@ == point_tag(name@, index as nat),
{
    let mut tag = name.clone();
    tag.push('(');
    push_decimal(&mut tag, index as u64);
    tag.push(')');
    assert(tag@ =~= point_tag(name@, index as nat));
    tag
}

/// The telemetry sample that reports the raw temperature of the point
/// tagged `tag`.
pub fn temperature_sample(tag: &str, temp: i32, hostname: Option<&str>) -> (r: MetricEvent)
    ensures
        r matches MetricEvent::Metric(line) && line@ == metric_line(
            opt_text(hostname),
            seq![("sensor"@, tag@)],
            seq![("temp"@, signed_decimal(temp as int))],
        ),
{
    let mut value = String::new();
    push_signed_decimal(&mut value, temp as i64);
    let mut fields: Vec<(String, String)> = Vec::new();
    fields.push(("temp".to_owned(), value));
    let mut tags: Vec<(String, String)> = Vec::new();
    tags.push(("sensor".to_owned(), tag.to_owned()));
    assert(pair_texts(fields@) =~= seq![("temp"@, signed_decimal(temp as int))]);
    assert(pair_texts(tags@) =~= seq![("sensor"@, tag@)]);
    report_metric(fields.as_slice(), tags.as_slice(), hostname)
}

impl ControlLoop {
    #[verifier::type_invariant]
    spec fn well_formed(self) -> bool {
        self.pvs.len() == self.failsafes.len()
    }

    /// A control loop without points.
    pub fn new() -> (r: ControlLoop)
        ensures
            r@ == Seq::<MonitoredPoint>::empty(),
    {
        let r = ControlLoop { pvs: Vec::new(), failsafes: Vec::new() };
        assert(r@ =~= Seq::<MonitoredPoint>::empty());
        r
    }

    /// Registers a point after those that are there. It is unsafe at
    /// `failsafe` degrees and above, and has no reading yet.
    pub fn add_control(&mut self, name: String, failsafe: i64)
        ensures
            final(self)@ == old(self)@.push(
                MonitoredPoint { name: name@, failsafe, status: IPMIValue::Unknown },
            ),
    {
        proof {
            use_type_invariant(&*self);
        }
        // The two lists are taken out to grow one after the other, and put
        // back together.
        let mut taken = ControlLoop::new();
        core::mem::swap(self, &mut taken);
        let ControlLoop { mut pvs, mut failsafes } = taken;
        failsafes.push(failsafe);
        pvs.push(IPMIRequest { name, status: IPMIValue::Unknown });
        *self = ControlLoop { pvs, failsafes };
        assert(self@ =~= old(self)@.push(
            MonitoredPoint { name: name@, failsafe, status: IPMIValue::Unknown },
        ));
    }

    /// The number of registered points.
    pub fn len(&self) -> (n: usize)
        ensures
            n == self@.len(),
    {
        self.pvs.len()
    }

    /// The registered points with their readings, in registration order.
    pub fn requests(&self) -> (r: &Vec<IPMIRequest>)
        ensures
            readings(r@) == readings_of(self@),
    {
        assert(readings(self.pvs@) =~= readings_of(self@));
        &self.pvs
    }

    /// The failsafe threshold of point `index`, where there is such a point.
    pub fn failsafe(&self, index: usize) -> (r: Option<i64>)
        ensures
            r == if index < self@.len() {
                Some(self@[index as int].failsafe)
            } else {
                None
            },
    {
        proof {
            use_type_invariant(self);
        }
        if index < self.failsafes.len() {
            Some(self.failsafes[index])
        } else {
            None
        }
    }

    /// Decides a cycle from the readings that the points hold.
    ///
    /// The points are taken in registration order. A point without a
    /// reading, with an unreadable one or with a rotation speed aborts the
    /// cycle. A temperature is reported; at or above the point's threshold it
    /// aborts the cycle before the point's controller is run. Nothing is
    /// decided for the points after the one that aborts the cycle.
    pub fn evaluate(&self) -> (plan: StepPlan)
        ensures
            effect_views(plan.effects@) == step_effects(self@),
            failure_view(plan.failure) == step_failure(self@),
    {
        proof {
            use_type_invariant(self);
        }
        let mut effects: Vec<StepEffect> = Vec::new();
        let mut i: usize = 0;
        assert(effect_views(effects@) =~= controlled_effects(self@, 0));
        while i < self.pvs.len()
            invariant
                i <= self.pvs.len(),
                self.pvs.len() == self.failsafes.len(),
                self@.len() == self.pvs.len(),
                effect_views(effects@) == controlled_effects(self@, i as int),
                forall|k: int| 0 <= k < i ==> point_fault(#[trigger] self@[k]) is None,
            decreases self.pvs.len() - i,
        {
            let ghost before = effect_views(effects@);
            let pv = &self.pvs[i];
            match pv.status {
                IPMIValue::Unknown => {
                    proof {
                        lemma_first_where_is(self@, faulty(), i as int);
                    }
                    return StepPlan {
                        effects,
                        failure: Some(ControlError::SensorUnset { name: pv.name.clone() }),
                    };
                },
                IPMIValue::Invalid => {
                    proof {
                        lemma_first_where_is(self@, faulty(), i as int);
                    }
                    return StepPlan {
                        effects,
                        failure: Some(ControlError::SensorInvalid { name: pv.name.clone() }),
                    };
                },
                IPMIValue::RPM(rpm) => {
                    proof {
                        lemma_first_where_is(self@, faulty(), i as int);
                    }
                    return StepPlan {
                        effects,
                        failure: Some(
                            ControlError::SensorKindMismatch { name: pv.name.clone(), rpm },
                        ),
                    };
                },
                IPMIValue::Temp(temp) => {
                    let tag = make_tag(&pv.name, i);
                    let threshold = self.failsafes[i];
                    effects.push(StepEffect::ReportTemperature { tag: tag.clone(), temp });
                    assert(effect_views(effects@) =~= before.push(
                        Effect::ReportTemperature { tag: tag@, temp },
                    ));
                    if temp as i64 >= threshold {
                        proof {
                            lemma_first_where_is(self@, faulty(), i as int);
                        }
                        return StepPlan {
                            effects,
                            failure: Some(
                                ControlError::FailsafeTripped {
                                    name: pv.name.clone(),
                                    measured: temp,
                                    threshold,
                                },
                            ),
                        };
                    }
                    effects.push(StepEffect::RunController { index: i, tag, temp });
                    assert(effect_views(effects@) =~= before.push(
                        Effect::ReportTemperature { tag: tag@, temp },
                    ).push(Effect::RunController { index: i as int, tag: tag@, temp }));
                },
            }
            i += 1;
        }
        proof {
            lemma_first_where_is(self@, faulty(), i as int);
        }
        StepPlan { effects, failure: None }
    }

    /// Runs the deciding part of one cycle on what the poll of the sensors
    /// brought: the readings are taken in, and where the poll has no fault
    /// the cycle is decided from them. A fault of the poll aborts the cycle
    /// before any point is looked at.
    pub fn step(&mut self, outcome: &Invocation) -> (plan: StepPlan)
        ensures
            final(self)@ == with_statuses(
                old(self)@,
                polled(readings_of(old(self)@), *outcome),
            ),
            match poll_fault(*outcome) {
                Some(fault) => plan.effects@.len() == 0 && failure_view(plan.failure) == Some(
                    Fault::AcquisitionFailed { fault },
                ),
                None => effect_views(plan.effects@) == step_effects(final(self)@) && failure_view(
                    plan.failure,
                ) == step_failure(final(self)@),
            },
    {
        proof {
            use_type_invariant(&*self);
            lemma_polled_keeps_names(readings(self.pvs@), *outcome);
            assert(readings(self.pvs@) =~= readings_of(self@));
        }
        // The readings are taken out for the poll and put back.
        let mut taken = ControlLoop::new();
        core::mem::swap(self, &mut taken);
        let ControlLoop { mut pvs, failsafes } = taken;
        let acquired = get_ipmi_values(&mut pvs, outcome);
        *self = ControlLoop { pvs, failsafes };
        assert(self@ =~= with_statuses(old(self)@, polled(readings_of(old(self)@), *outcome)));
        match acquired {
            Err(e) => StepPlan { effects: Vec::new(), failure: Some(e) },
            Ok(()) => self.evaluate(),
        }
    }
}

} // verus!
