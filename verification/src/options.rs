//! The options that a k6 script declares.
//!
//! A script exports an `options` object: a load profile, named scenarios,
//! thresholds and a few settings of the HTTP client. [`K6Options::to_declared`]
//! turns it into the runner's terms. Every field is optional: a script that
//! declares a few of them is as good as one that declares them all.

use crate::binary64;
use crate::binary64::Binary64;
use crate::json;
use crate::json::Json;
use crate::scripts;
use crate::string_map;
use crate::string_map::StringMap;
use crate::text;
use crate::thresholds;
use vstd::prelude::*;
use vstd::string::*;

verus! {

// ── what a script declares ──

/// The `options` object of a script.
#[derive(Debug)]
pub struct K6Options {
    /// Number of virtual users.
    pub vus: Option<u32>,
    /// Test duration, such as `30s`.
    pub duration: Option<String>,
    /// Total iteration count.
    pub iterations: Option<u64>,
    /// Ramping stages.
    pub stages: Option<Vec<K6Stage>>,
    /// Named scenarios, each with its own executor.
    pub scenarios: Option<StringMap<K6Scenario>>,
    /// Thresholds by metric name.
    pub thresholds: Option<StringMap<K6ThresholdSpec>>,
    pub graceful_stop: Option<String>,
    pub graceful_ramp_down: Option<String>,
    pub max_duration: Option<String>,
    /// Whether the bodies of all responses are dropped.
    pub discard_response_bodies: Option<bool>,
    /// The trend statistics that the summary shows.
    pub summary_trend_stats: Option<Vec<String>>,
    pub dns: Option<K6Dns>,
    /// Whether each request closes its connection.
    pub no_connection_reuse: Option<bool>,
    /// Whether each virtual user has a connection pool of its own.
    pub no_vu_connection_reuse: Option<bool>,
    /// The most requests per second, over all virtual users.
    pub rps: Option<Binary64>,
    /// Addresses by host name.
    pub hosts: Option<StringMap<String>>,
    /// Addresses and networks that no request may reach.
    pub blacklist_ips: Option<Vec<String>>,
    /// Whether certificates are taken unverified.
    pub insecure_skip_tls_verify: Option<bool>,
}

/// Name resolution: how long answers are kept, and which address is used.
#[derive(Debug)]
pub struct K6Dns {
    /// `5m`, `inf` or `0`.
    pub ttl: Option<String>,
    /// `first`, `roundRobin` or `random`.
    pub select: Option<String>,
    /// `preferIPv4`, `preferIPv6`, `onlyIPv4`, `onlyIPv6` or `any`.
    pub policy: Option<String>,
}

/// A ramping stage. The target is a number of virtual users, or a rate.
#[derive(Debug)]
pub struct K6Stage {
    pub duration: String,
    pub target: Binary64,
}

/// One named scenario.
#[derive(Debug)]
pub struct K6Scenario {
    /// `constant-vus`, `ramping-vus`, `shared-iterations`, `per-vu-iterations`,
    /// `constant-arrival-rate`, `ramping-arrival-rate` or
    /// `externally-controlled`.
    pub executor: String,
    pub vus: Option<u32>,
    pub duration: Option<String>,
    pub iterations: Option<u64>,
    pub start_vus: Option<u32>,
    pub stages: Option<Vec<K6Stage>>,
    pub rate: Option<Binary64>,
    pub time_unit: Option<String>,
    pub pre_allocated_vus: Option<u32>,
    pub max_vus: Option<u32>,
    pub start_rate: Option<Binary64>,
    pub max_duration: Option<String>,
    pub graceful_stop: Option<String>,
    pub graceful_ramp_down: Option<String>,
    pub start_time: Option<String>,
    pub env: StringMap<String>,
    pub tags: StringMap<String>,
    /// The exported function that the scenario runs.
    pub exec_name: Option<String>,
}

/// The thresholds of one metric: an expression, or a list of expressions and of
/// objects with `threshold`, `abortOnFail` and `delayAbortEval`. Any other shape
/// declares nothing.
#[derive(Debug)]
pub enum K6ThresholdSpec {
    Single(String),
    Array(Vec<Json>),
    Other(Json),
}

// ── what the runner is told ──

#[derive(Debug)]
pub struct Stage {
    pub duration: String,
    pub target: u32,
}

#[derive(Debug)]
pub struct ArrivalRateStage {
    pub duration: String,
    pub target: Binary64,
}

/// A load profile.
#[allow(inconsistent_fields)]
#[derive(Debug)]
pub enum ExecutionConfig {
    ConstantVus { vus: u32, duration: String, graceful_stop: Option<String> },
    RampingVus {
        stages: Vec<Stage>,
        start_vus: u32,
        graceful_ramp_down: Option<String>,
        graceful_stop: Option<String>,
    },
    SharedIterations {
        iterations: u64,
        max_duration: Option<String>,
        vus: u32,
        graceful_stop: Option<String>,
    },
    PerVUIterations {
        vus: u32,
        iterations: u64,
        max_duration: Option<String>,
        graceful_stop: Option<String>,
    },
    ConstantArrivalRate {
        rate: Binary64,
        time_unit: String,
        duration: String,
        pre_alloc_vus: u32,
        max_vus: u32,
        graceful_stop: Option<String>,
    },
    RampingArrivalRate {
        start_rate: Binary64,
        stages: Vec<ArrivalRateStage>,
        time_unit: String,
        pre_alloc_vus: u32,
        max_vus: u32,
        graceful_stop: Option<String>,
    },
    ExternallyControlled {
        vus: u32,
        max_vus: u32,
        duration: Option<String>,
        graceful_stop: Option<String>,
    },
}

#[derive(Debug)]
pub struct ScenarioConfig {
    pub execution: ExecutionConfig,
    pub env: StringMap<String>,
    pub tags: StringMap<String>,
    pub start_time: String,
    pub exec_name: Option<String>,
}

#[derive(Debug)]
pub struct ThresholdConfig {
    pub expression: String,
    pub abort_on_fail: bool,
    pub delay_abort_eval: Option<String>,
}

#[derive(Debug)]
pub struct DriverDeclaredOptions {
    pub execution: Option<ExecutionConfig>,
    pub scenarios: Option<StringMap<ScenarioConfig>>,
    pub thresholds: StringMap<ThresholdConfig>,
    pub discard_response_bodies: Option<bool>,
    pub summary_trend_stats: Option<Vec<String>>,
    pub dns_ttl: Option<String>,
    pub dns_select: Option<String>,
    pub dns_policy: Option<String>,
    pub no_connection_reuse: Option<bool>,
    pub no_vu_connection_reuse: Option<bool>,
    pub rps: Option<Binary64>,
    pub hosts: Option<StringMap<String>>,
    pub blacklist_ips: Option<Vec<String>>,
    pub insecure_skip_tls_verify: Option<bool>,
}

// ── the values of both ──

pub struct StageView {
    pub duration: Seq<char>,
    pub target: u32,
}

pub struct RateStageView {
    pub duration: Seq<char>,
    pub target: Binary64,
}

#[allow(inconsistent_fields)]
#[verifier::ext_equal]
pub enum ExecutionView {
    ConstantVus { vus: u32, duration: Seq<char>, graceful_stop: Option<Seq<char>> },
    RampingVus {
        stages: Seq<StageView>,
        start_vus: u32,
        graceful_ramp_down: Option<Seq<char>>,
        graceful_stop: Option<Seq<char>>,
    },
    SharedIterations {
        iterations: u64,
        max_duration: Option<Seq<char>>,
        vus: u32,
        graceful_stop: Option<Seq<char>>,
    },
    PerVUIterations {
        vus: u32,
        iterations: u64,
        max_duration: Option<Seq<char>>,
        graceful_stop: Option<Seq<char>>,
    },
    ConstantArrivalRate {
        rate: Binary64,
        time_unit: Seq<char>,
        duration: Seq<char>,
        pre_alloc_vus: u32,
        max_vus: u32,
        graceful_stop: Option<Seq<char>>,
    },
    RampingArrivalRate {
        start_rate: Binary64,
        stages: Seq<RateStageView>,
        time_unit: Seq<char>,
        pre_alloc_vus: u32,
        max_vus: u32,
        graceful_stop: Option<Seq<char>>,
    },
    ExternallyControlled {
        vus: u32,
        max_vus: u32,
        duration: Option<Seq<char>>,
        graceful_stop: Option<Seq<char>>,
    },
}

pub open spec fn stage_views(stages: Seq<Stage>) -> Seq<StageView> {
    stages.map_values(|s: Stage| StageView { duration: s.duration@, target: s.target })
}

pub open spec fn rate_stage_views(stages: Seq<ArrivalRateStage>) -> Seq<RateStageView> {
    stages.map_values(
        |s: ArrivalRateStage| RateStageView { duration: s.duration@, target: s.target },
    )
}

impl View for ExecutionConfig {
    type V = ExecutionView;

    open spec fn view(&self) -> ExecutionView {
        match *self {
            ExecutionConfig::ConstantVus { vus, duration, graceful_stop } => {
                ExecutionView::ConstantVus {
                    vus,
                    duration: duration@,
                    graceful_stop: text::opt_text(graceful_stop),
                }
            },
            ExecutionConfig::RampingVus { stages, start_vus, graceful_ramp_down, graceful_stop } => {
                ExecutionView::RampingVus {
                    stages: stage_views(stages@),
                    start_vus,
                    graceful_ramp_down: text::opt_text(graceful_ramp_down),
                    graceful_stop: text::opt_text(graceful_stop),
                }
            },
            ExecutionConfig::SharedIterations { iterations, max_duration, vus, graceful_stop } => {
                ExecutionView::SharedIterations {
                    iterations,
                    max_duration: text::opt_text(max_duration),
                    vus,
                    graceful_stop: text::opt_text(graceful_stop),
                }
            },
            ExecutionConfig::PerVUIterations { vus, iterations, max_duration, graceful_stop } => {
                ExecutionView::PerVUIterations {
                    vus,
                    iterations,
                    max_duration: text::opt_text(max_duration),
                    graceful_stop: text::opt_text(graceful_stop),
                }
            },
            ExecutionConfig::ConstantArrivalRate {
                rate,
                time_unit,
                duration,
                pre_alloc_vus,
                max_vus,
                graceful_stop,
            } => {
                ExecutionView::ConstantArrivalRate {
                    rate,
                    time_unit: time_unit@,
                    duration: duration@,
                    pre_alloc_vus,
                    max_vus,
                    graceful_stop: text::opt_text(graceful_stop),
                }
            },
            ExecutionConfig::RampingArrivalRate {
                start_rate,
                stages,
                time_unit,
                pre_alloc_vus,
                max_vus,
                graceful_stop,
            } => {
                ExecutionView::RampingArrivalRate {
                    start_rate,
                    stages: rate_stage_views(stages@),
                    time_unit: time_unit@,
                    pre_alloc_vus,
                    max_vus,
                    graceful_stop: text::opt_text(graceful_stop),
                }
            },
            ExecutionConfig::ExternallyControlled { vus, max_vus, duration, graceful_stop } => {
                ExecutionView::ExternallyControlled {
                    vus,
                    max_vus,
                    duration: text::opt_text(duration),
                    graceful_stop: text::opt_text(graceful_stop),
                }
            },
        }
    }
}

pub open spec fn opt_execution(e: Option<ExecutionConfig>) -> Option<ExecutionView> {
    match e {
        Some(e) => Some(e@),
        None => None,
    }
}

// ── load profiles ──

/// Stages whose targets are numbers of virtual users.
pub open spec fn user_stages(stages: Option<Vec<K6Stage>>) -> Seq<StageView> {
    match stages {
        Some(v) => v@.map_values(
            |s: K6Stage|
                StageView {
                    duration: s.duration@,
                    target: binary64::saturated(s.target, u32::MAX as nat) as u32,
                },
        ),
        None => Seq::empty(),
    }
}

/// Stages whose targets are rates.
pub open spec fn rate_stages(stages: Option<Vec<K6Stage>>) -> Seq<RateStageView> {
    match stages {
        Some(v) => v@.map_values(
            |s: K6Stage| RateStageView { duration: s.duration@, target: s.target },
        ),
        None => Seq::empty(),
    }
}

pub open spec fn or_one(vus: Option<u32>) -> u32 {
    match vus {
        Some(n) => n,
        None => 1,
    }
}

pub open spec fn text_or(s: Option<String>, default: Seq<char>) -> Seq<char> {
    match s {
        Some(s) => s@,
        None => default,
    }
}

/// The most virtual users of an arrival-rate scenario: as many as are allocated
/// in advance, unless more are asked for.
pub open spec fn rate_max_vus(max_vus: Option<u32>, pre_allocated: u32) -> u32 {
    match max_vus {
        Some(n) => if n < pre_allocated {
            pre_allocated
        } else {
            n
        },
        None => pre_allocated,
    }
}

/// The load profile at the top level of the options: stages come before
/// iterations, and iterations before a duration. One virtual user is the default.
pub open spec fn top_execution(o: K6Options) -> Option<ExecutionView> {
    if o.stages matches Some(stages) && stages@.len() > 0 {
        Some(
            ExecutionView::RampingVus {
                stages: user_stages(o.stages),
                start_vus: or_one(o.vus),
                graceful_ramp_down: text::opt_text(o.graceful_ramp_down),
                graceful_stop: text::opt_text(o.graceful_stop),
            },
        )
    } else if let Some(iterations) = o.iterations {
        Some(
            ExecutionView::SharedIterations {
                iterations,
                max_duration: text::opt_text(o.max_duration),
                vus: or_one(o.vus),
                graceful_stop: text::opt_text(o.graceful_stop),
            },
        )
    } else if let Some(duration) = o.duration {
        Some(
            ExecutionView::ConstantVus {
                vus: or_one(o.vus),
                duration: duration@,
                graceful_stop: text::opt_text(o.graceful_stop),
            },
        )
    } else {
        None
    }
}

/// The load profile of a named scenario, by its executor. Nothing where the
/// executor is not known or misses a field that it requires.
pub open spec fn scenario_execution(s: K6Scenario) -> Option<ExecutionView> {
    let graceful_stop = text::opt_text(s.graceful_stop);
    if s.executor@ == "constant-vus"@ {
        match (s.vus, s.duration) {
            (Some(vus), Some(duration)) => Some(
                ExecutionView::ConstantVus { vus, duration: duration@, graceful_stop },
            ),
            _ => None,
        }
    } else if s.executor@ == "ramping-vus"@ {
        Some(
            ExecutionView::RampingVus {
                stages: user_stages(s.stages),
                start_vus: match s.start_vus {
                    Some(n) => n,
                    None => or_one(s.vus),
                },
                graceful_ramp_down: text::opt_text(s.graceful_ramp_down),
                graceful_stop,
            },
        )
    } else if s.executor@ == "shared-iterations"@ {
        match s.iterations {
            Some(iterations) => Some(
                ExecutionView::SharedIterations {
                    iterations,
                    max_duration: text::opt_text(s.max_duration),
                    vus: or_one(s.vus),
                    graceful_stop,
                },
            ),
            None => None,
        }
    } else if s.executor@ == "per-vu-iterations"@ {
        match s.iterations {
            Some(iterations) => Some(
                ExecutionView::PerVUIterations {
                    vus: or_one(s.vus),
                    iterations,
                    max_duration: text::opt_text(s.max_duration),
                    graceful_stop,
                },
            ),
            None => None,
        }
    } else if s.executor@ == "constant-arrival-rate"@ {
        match (s.pre_allocated_vus, s.rate, s.duration) {
            (Some(pre_alloc_vus), Some(rate), Some(duration)) => Some(
                ExecutionView::ConstantArrivalRate {
                    rate,
                    time_unit: text_or(s.time_unit, "1s"@),
                    duration: duration@,
                    pre_alloc_vus,
                    max_vus: rate_max_vus(s.max_vus, pre_alloc_vus),
                    graceful_stop,
                },
            ),
            _ => None,
        }
    } else if s.executor@ == "ramping-arrival-rate"@ {
        match s.pre_allocated_vus {
            Some(pre_alloc_vus) => Some(
                ExecutionView::RampingArrivalRate {
                    start_rate: match s.start_rate {
                        Some(rate) => rate,
                        None => Binary64 { bits: 0 },
                    },
                    stages: rate_stages(s.stages),
                    time_unit: text_or(s.time_unit, "1s"@),
                    pre_alloc_vus,
                    max_vus: rate_max_vus(s.max_vus, pre_alloc_vus),
                    graceful_stop,
                },
            ),
            None => None,
        }
    } else if s.executor@ == "externally-controlled"@ {
        Some(
            ExecutionView::ExternallyControlled {
                vus: or_one(s.vus),
                max_vus: match s.max_vus {
                    Some(n) => n,
                    None => 10,
                },
                duration: text::opt_text(s.duration),
                graceful_stop,
            },
        )
    } else {
        None
    }
}

fn vus_or_one(vus: Option<u32>) -> (r: u32)
    ensures
        r == or_one(vus),
{
    match vus {
        Some(n) => n,
        None => 1,
    }
}

fn max_vus_for_rate(max_vus: Option<u32>, pre_allocated: u32) -> (r: u32)
    ensures
        r == rate_max_vus(max_vus, pre_allocated),
{
    match max_vus {
        Some(n) => if n < pre_allocated {
            pre_allocated
        } else {
            n
        },
        None => pre_allocated,
    }
}

fn to_user_stages(stages: &Option<Vec<K6Stage>>) -> (r: Vec<Stage>)
    ensures
        stage_views(r@) == user_stages(*stages),
{
    let mut r: Vec<Stage> = Vec::new();
    if let Some(v) = stages {
        let ghost want = user_stages(*stages);
        let mut i: usize = 0;
        while i < v.len()
            invariant
                i <= v@.len(),
                stages == Some(*v),
                want == user_stages(*stages),
                stage_views(r@) == want.take(i as int),
            decreases v@.len() - i,
        {
            let target: u32 = v[i].target.to_u32();
            let ghost before = r@;
            r.push(Stage { duration: v[i].duration.clone(), target });
            assert(stage_views(r@) =~= stage_views(before).push(stage_views(r@).last()));
            assert(want.take(i + 1) =~= want.take(i as int).push(want[i as int]));
            i += 1;
        }
        assert(want.take(v@.len() as int) =~= want);
    } else {
        assert(stage_views(r@) =~= Seq::empty());
    }
    r
}

fn to_rate_stages(stages: &Option<Vec<K6Stage>>) -> (r: Vec<ArrivalRateStage>)
    ensures
        rate_stage_views(r@) == rate_stages(*stages),
{
    let mut r: Vec<ArrivalRateStage> = Vec::new();
    if let Some(v) = stages {
        let ghost want = rate_stages(*stages);
        let mut i: usize = 0;
        while i < v.len()
            invariant
                i <= v@.len(),
                stages == Some(*v),
                want == rate_stages(*stages),
                rate_stage_views(r@) == want.take(i as int),
            decreases v@.len() - i,
        {
            let ghost before = r@;
            r.push(ArrivalRateStage { duration: v[i].duration.clone(), target: v[i].target });
            assert(rate_stage_views(r@) =~= rate_stage_views(before).push(
                rate_stage_views(r@).last(),
            ));
            assert(want.take(i + 1) =~= want.take(i as int).push(want[i as int]));
            i += 1;
        }
        assert(want.take(v@.len() as int) =~= want);
    } else {
        assert(rate_stage_views(r@) =~= Seq::empty());
    }
    r
}

impl K6Scenario {
    /// The load profile of the scenario.
    pub fn to_execution(&self) -> (r: Option<ExecutionConfig>)
        ensures
            opt_execution(r) == scenario_execution(*self),
    {
        let executor = self.executor.as_str();
        let graceful_stop = text::copied(&self.graceful_stop);
        if text::same_text(executor, "constant-vus") {
            match (self.vus, &self.duration) {
                (Some(vus), Some(duration)) => Some(
                    ExecutionConfig::ConstantVus { vus, duration: duration.clone(), graceful_stop },
                ),
                _ => None,
            }
        } else if text::same_text(executor, "ramping-vus") {
            let start_vus: u32 = match self.start_vus {
                Some(n) => n,
                None => vus_or_one(self.vus),
            };
            Some(
                ExecutionConfig::RampingVus {
                    stages: to_user_stages(&self.stages),
                    start_vus,
                    graceful_ramp_down: text::copied(&self.graceful_ramp_down),
                    graceful_stop,
                },
            )
        } else if text::same_text(executor, "shared-iterations") {
            match self.iterations {
                Some(iterations) => Some(
                    ExecutionConfig::SharedIterations {
                        iterations,
                        max_duration: text::copied(&self.max_duration),
                        vus: vus_or_one(self.vus),
                        graceful_stop,
                    },
                ),
                None => None,
            }
        } else if text::same_text(executor, "per-vu-iterations") {
            match self.iterations {
                Some(iterations) => Some(
                    ExecutionConfig::PerVUIterations {
                        vus: vus_or_one(self.vus),
                        iterations,
                        max_duration: text::copied(&self.max_duration),
                        graceful_stop,
                    },
                ),
                None => None,
            }
        } else if text::same_text(executor, "constant-arrival-rate") {
            match (self.pre_allocated_vus, self.rate, &self.duration) {
                (Some(pre_alloc_vus), Some(rate), Some(duration)) => Some(
                    ExecutionConfig::ConstantArrivalRate {
                        rate,
                        time_unit: text::copied_or(&self.time_unit, "1s"),
                        duration: duration.clone(),
                        pre_alloc_vus,
                        max_vus: max_vus_for_rate(self.max_vus, pre_alloc_vus),
                        graceful_stop,
                    },
                ),
                _ => None,
            }
        } else if text::same_text(executor, "ramping-arrival-rate") {
            match self.pre_allocated_vus {
                Some(pre_alloc_vus) => {
                    let start_rate = match self.start_rate {
                        Some(rate) => rate,
                        None => Binary64 { bits: 0 },
                    };
                    Some(
                        ExecutionConfig::RampingArrivalRate {
                            start_rate,
                            stages: to_rate_stages(&self.stages),
                            time_unit: text::copied_or(&self.time_unit, "1s"),
                            pre_alloc_vus,
                            max_vus: max_vus_for_rate(self.max_vus, pre_alloc_vus),
                            graceful_stop,
                        },
                    )
                },
                None => None,
            }
        } else if text::same_text(executor, "externally-controlled") {
            let max_vus: u32 = match self.max_vus {
                Some(n) => n,
                None => 10,
            };
            Some(
                ExecutionConfig::ExternallyControlled {
                    vus: vus_or_one(self.vus),
                    max_vus,
                    duration: text::copied(&self.duration),
                    graceful_stop,
                },
            )
        } else {
            None
        }
    }
}

impl K6Options {
    /// The load profile at the top level of the options.
    pub fn to_execution(&self) -> (r: Option<ExecutionConfig>)
        ensures
            opt_execution(r) == top_execution(*self),
    {
        if let Some(stages) = &self.stages {
            if stages.len() > 0 {
                return Some(
                    ExecutionConfig::RampingVus {
                        stages: to_user_stages(&self.stages),
                        start_vus: vus_or_one(self.vus),
                        graceful_ramp_down: text::copied(&self.graceful_ramp_down),
                        graceful_stop: text::copied(&self.graceful_stop),
                    },
                );
            }
        }
        if let Some(iterations) = self.iterations {
            return Some(
                ExecutionConfig::SharedIterations {
                    iterations,
                    max_duration: text::copied(&self.max_duration),
                    vus: vus_or_one(self.vus),
                    graceful_stop: text::copied(&self.graceful_stop),
                },
            );
        }
        if let Some(duration) = &self.duration {
            return Some(
                ExecutionConfig::ConstantVus {
                    vus: vus_or_one(self.vus),
                    duration: duration.clone(),
                    graceful_stop: text::copied(&self.graceful_stop),
                },
            );
        }
        None
    }
}

// ── thresholds ──

#[verifier::ext_equal]
pub struct ThresholdView {
    pub expression: Seq<char>,
    pub abort_on_fail: bool,
    pub delay_abort_eval: Option<Seq<char>>,
}

impl View for ThresholdConfig {
    type V = ThresholdView;

    open spec fn view(&self) -> ThresholdView {
        ThresholdView {
            expression: self.expression@,
            abort_on_fail: self.abort_on_fail,
            delay_abort_eval: text::opt_text(self.delay_abort_eval),
        }
    }
}

pub open spec fn threshold_views(v: Seq<ThresholdConfig>) -> Seq<ThresholdView> {
    v.map_values(|c: ThresholdConfig| c@)
}

/// The threshold that one item of a list declares. An item that is neither an
/// expression nor an object with one declares none.
pub open spec fn item_threshold(
    metric: Seq<char>,
    item: json::JsonView,
    rounded: Map<Seq<char>, String>,
) -> Option<ThresholdView> {
    if let Some(expr) = json::as_text(Some(item)) {
        Some(
            ThresholdView {
                expression: thresholds::translated(metric, expr, rounded),
                abort_on_fail: false,
                delay_abort_eval: None,
            },
        )
    } else if let Some(expr) = json::text_member(item, "threshold"@) {
        Some(
            ThresholdView {
                expression: thresholds::translated(metric, expr, rounded),
                abort_on_fail: json::as_bool(json::member(item, "abortOnFail"@)) == Some(true),
                delay_abort_eval: json::text_member(item, "delayAbortEval"@),
            },
        )
    } else {
        None
    }
}

/// The thresholds that a list declares, in order.
pub open spec fn item_thresholds(
    metric: Seq<char>,
    items: Seq<json::JsonView>,
    rounded: Map<Seq<char>, String>,
) -> Seq<ThresholdView>
    decreases items.len(),
{
    if items.len() == 0 {
        Seq::empty()
    } else {
        let before = item_thresholds(metric, items.drop_last(), rounded);
        match item_threshold(metric, items.last(), rounded) {
            Some(t) => before.push(t),
            None => before,
        }
    }
}

/// The thresholds that one metric declares, in order.
pub open spec fn spec_thresholds(
    metric: Seq<char>,
    declared: K6ThresholdSpec,
    rounded: Map<Seq<char>, String>,
) -> Seq<ThresholdView> {
    match declared {
        K6ThresholdSpec::Single(expr) => seq![
            ThresholdView {
                expression: thresholds::translated(metric, expr@, rounded),
                abort_on_fail: false,
                delay_abort_eval: None,
            },
        ],
        K6ThresholdSpec::Array(items) => item_thresholds(metric, json::items_view(items@), rounded),
        K6ThresholdSpec::Other(_) => Seq::empty(),
    }
}

/// The key of a metric's threshold: the name of the metric for the first one, and
/// the name with a number for each one after it.
pub open spec fn threshold_key(metric: Seq<char>, i: nat) -> Seq<char> {
    if i == 0 {
        metric
    } else {
        metric + "#"@ + text::decimal(i)
    }
}

/// `m` with the thresholds of one metric added.
pub open spec fn with_thresholds(
    m: Map<Seq<char>, ThresholdView>,
    metric: Seq<char>,
    configs: Seq<ThresholdView>,
) -> Map<Seq<char>, ThresholdView>
    decreases configs.len(),
{
    if configs.len() == 0 {
        m
    } else {
        with_thresholds(m, metric, configs.drop_last()).insert(
            threshold_key(metric, (configs.len() - 1) as nat),
            configs.last(),
        )
    }
}

/// The thresholds of all metrics. Where a metric is named like the key of another
/// one's later threshold, the one that stands later is kept.
pub open spec fn all_thresholds(
    metrics: Seq<(String, K6ThresholdSpec)>,
    rounded: Map<Seq<char>, String>,
) -> Map<Seq<char>, ThresholdView>
    decreases metrics.len(),
{
    if metrics.len() == 0 {
        Map::empty()
    } else {
        with_thresholds(
            all_thresholds(metrics.drop_last(), rounded),
            metrics.last().0@,
            spec_thresholds(metrics.last().0@, metrics.last().1, rounded),
        )
    }
}

pub open spec fn declared_thresholds(
    o: K6Options,
    rounded: Map<Seq<char>, String>,
) -> Map<Seq<char>, ThresholdView> {
    match o.thresholds {
        Some(m) => all_thresholds(m.order(), rounded),
        None => Map::empty(),
    }
}

pub open spec fn threshold_map(m: Map<Seq<char>, ThresholdConfig>) -> Map<
    Seq<char>,
    ThresholdView,
> {
    m.map_values(|c: ThresholdConfig| c@)
}

/// A threshold with its expression translated.
pub fn build_threshold(
    metric: &str,
    expr: &str,
    abort_on_fail: bool,
    delay_abort_eval: Option<String>,
    rounded: &StringMap<String>,
) -> (r: ThresholdConfig)
    ensures
        r.expression@ == thresholds::translated(metric@, expr@, rounded@),
        r.abort_on_fail == abort_on_fail,
        r.delay_abort_eval == delay_abort_eval,
{
    ThresholdConfig {
        expression: thresholds::translate_k6_expression(metric, expr, rounded),
        abort_on_fail,
        delay_abort_eval,
    }
}

fn item_to_config(metric: &str, item: &Json, rounded: &StringMap<String>) -> (r: Option<
    ThresholdConfig,
>)
    ensures
        match r {
            Some(c) => item_threshold(metric@, item@, rounded@) == Some(c@),
            None => item_threshold(metric@, item@, rounded@) is None,
        },
{
    if let Some(expr) = item.as_str() {
        return Some(build_threshold(metric, expr, false, None, rounded));
    }
    let expr = match item.text_of("threshold") {
        Some(expr) => expr,
        None => {
            return None;
        },
    };
    let abort = match item.get("abortOnFail") {
        Some(v) => match v.as_bool() {
            Some(b) => b,
            None => false,
        },
        None => false,
    };
    let delay = match item.text_of("delayAbortEval") {
        Some(s) => Some(s.to_owned()),
        None => None,
    };
    Some(build_threshold(metric, expr, abort, delay, rounded))
}

/// The thresholds that one metric declares, in order.
pub fn spec_to_configs(
    metric: &str,
    declared: &K6ThresholdSpec,
    rounded: &StringMap<String>,
) -> (r: Vec<ThresholdConfig>)
    ensures
        threshold_views(r@) == spec_thresholds(metric@, *declared, rounded@),
{
    let mut r: Vec<ThresholdConfig> = Vec::new();
    match declared {
        K6ThresholdSpec::Single(expr) => {
            r.push(build_threshold(metric, expr.as_str(), false, None, rounded));
            assert(threshold_views(r@) =~= spec_thresholds(metric@, *declared, rounded@));
        },
        K6ThresholdSpec::Other(_) => {
            assert(threshold_views(r@) =~= Seq::empty());
        },
        K6ThresholdSpec::Array(items) => {
            let ghost all = json::items_view(items@);
            let mut i: usize = 0;
            assert(threshold_views(r@) =~= Seq::empty());
            while i < items.len()
                invariant
                    i <= items@.len(),
                    all == json::items_view(items@),
                    threshold_views(r@) == item_thresholds(metric@, all.take(i as int), rounded@),
                decreases items@.len() - i,
            {
                let found = item_to_config(metric, &items[i], rounded);
                assert(all.take(i + 1).drop_last() =~= all.take(i as int));
                assert(all.take(i + 1).last() == items@[i as int]@);
                let ghost before = r@;
                if let Some(c) = found {
                    r.push(c);
                    assert(threshold_views(r@) =~= threshold_views(before).push(c@));
                }
                i += 1;
            }
            assert(all.take(items@.len() as int) =~= all);
        },
    }
    r
}

proof fn lemma_threshold_insert(m: Map<Seq<char>, ThresholdConfig>, k: Seq<char>, c: ThresholdConfig)
    ensures
        threshold_map(m.insert(k, c)) == threshold_map(m).insert(k, c@),
{
    assert(threshold_map(m.insert(k, c)) =~= threshold_map(m).insert(k, c@));
}

fn key_of(metric: &str, i: usize) -> (r: String)
    ensures
        r@ == threshold_key(metric@, i as nat),
{
    let mut r: String = metric.to_owned();
    if i > 0 {
        r.append("#");
        r.append(text::decimal_text(i as u64).as_str());
    }
    r
}

fn add_thresholds(
    out: &mut StringMap<ThresholdConfig>,
    metric: &str,
    configs: Vec<ThresholdConfig>,
)
    ensures
        threshold_map(final(out)@) == with_thresholds(
            threshold_map(old(out)@),
            metric@,
            threshold_views(configs@),
        ),
{
    let ghost all = threshold_views(configs@);
    let ghost start = threshold_map(out@);
    let n: usize = configs.len();
    let mut i: usize = 0;
    for c in it: configs
        invariant
            it.seq() == configs@,
            i == it.index(),
            i <= configs@.len() == n,
            all == threshold_views(configs@),
            start == threshold_map(old(out)@),
            threshold_map(out@) == with_thresholds(start, metric@, all.take(i as int)),
    {
        let key = key_of(metric, i);
        proof {
            lemma_threshold_insert(out@, key@, c);
            assert(all.take(i + 1).drop_last() =~= all.take(i as int));
            assert(all.take(i + 1).last() == c@);
        }
        out.insert(key, c);
        i = i + 1;
    }
    assert(all.take(configs@.len() as int) =~= all);
}

impl K6Options {
    /// The thresholds of all metrics, by key.
    pub fn convert_thresholds(&self, rounded: &StringMap<String>) -> (r: StringMap<ThresholdConfig>)
        ensures
            threshold_map(r@) == declared_thresholds(*self, rounded@),
    {
        let mut out: StringMap<ThresholdConfig> = StringMap::new();
        assert(threshold_map(out@) =~= Map::empty());
        if let Some(m) = &self.thresholds {
            let mut i: usize = 0;
            while i < m.len()
                invariant
                    i <= m.order().len(),
                    threshold_map(out@) == all_thresholds(m.order().take(i as int), rounded@),
                decreases m.order().len() - i,
            {
                let entry = m.entry(i);
                let configs = spec_to_configs(entry.0.as_str(), &entry.1, rounded);
                assert(m.order().take(i + 1).drop_last() =~= m.order().take(i as int));
                add_thresholds(&mut out, entry.0.as_str(), configs);
                i += 1;
            }
            assert(m.order().take(m.order().len() as int) =~= m.order());
        }
        out
    }
}

/// The expression of one item of a list.
pub open spec fn item_expression(item: json::JsonView) -> Seq<Seq<char>> {
    if let Some(expr) = json::as_text(Some(item)) {
        seq![expr]
    } else if let Some(expr) = json::text_member(item, "threshold"@) {
        seq![expr]
    } else {
        Seq::empty()
    }
}

/// The expressions that one metric declares, in order.
pub open spec fn spec_expressions(declared: K6ThresholdSpec) -> Seq<Seq<char>> {
    match declared {
        K6ThresholdSpec::Single(expr) => seq![expr@],
        K6ThresholdSpec::Array(items) => json::items_view(items@).map_values(
            |item: json::JsonView| item_expression(item),
        ).flatten(),
        K6ThresholdSpec::Other(_) => Seq::empty(),
    }
}

/// The expressions that the options declare, in order.
pub open spec fn expressions_of(o: K6Options) -> Seq<Seq<char>> {
    match o.thresholds {
        Some(m) => m.order().map_values(
            |e: (String, K6ThresholdSpec)| spec_expressions(e.1),
        ).flatten(),
        None => Seq::empty(),
    }
}

fn expressions_in(declared: &K6ThresholdSpec) -> (r: Vec<String>)
    ensures
        text::views(r@) == spec_expressions(*declared),
{
    let mut r: Vec<String> = Vec::new();
    match declared {
        K6ThresholdSpec::Single(expr) => {
            r.push(expr.clone());
            assert(text::views(r@) =~= seq![expr@]);
        },
        K6ThresholdSpec::Other(_) => {
            assert(text::views(r@) =~= Seq::empty());
        },
        K6ThresholdSpec::Array(items) => {
            let ghost all = json::items_view(items@).map_values(
                |item: json::JsonView| item_expression(item),
            );
            let mut i: usize = 0;
            assert(all.take(0).flatten() =~= Seq::empty());
            assert(text::views(r@) =~= Seq::empty());
            while i < items.len()
                invariant
                    i <= items@.len(),
                    all == json::items_view(items@).map_values(
                        |item: json::JsonView| item_expression(item),
                    ),
                    text::views(r@) == all.take(i as int).flatten(),
                decreases items@.len() - i,
            {
                let ghost before = r@;
                if let Some(expr) = items[i].as_str() {
                    r.push(expr.to_owned());
                } else if let Some(expr) = items[i].text_of("threshold") {
                    r.push(expr.to_owned());
                }
                proof {
                    let added = item_expression(items@[i as int]@);
                    assert(all.take(i + 1) =~= all.take(i as int).push(added));
                    all.take(i as int).lemma_flatten_push(added);
                    assert(text::views(r@) =~= text::views(before) + added);
                }
                i += 1;
            }
            assert(all.take(items@.len() as int) =~= all);
        },
    }
    r
}

impl K6Options {
    /// The threshold expressions that the options declare, in order.
    pub fn expressions(&self) -> (r: Vec<String>)
        ensures
            text::views(r@) == expressions_of(*self),
    {
        let mut r: Vec<String> = Vec::new();
        assert(text::views(r@) =~= Seq::empty());
        if let Some(m) = &self.thresholds {
            let ghost all = m.order().map_values(
                |e: (String, K6ThresholdSpec)| spec_expressions(e.1),
            );
            let mut i: usize = 0;
            assert(all.take(0).flatten() =~= Seq::empty());
            while i < m.len()
                invariant
                    i <= m.order().len(),
                    all == m.order().map_values(
                        |e: (String, K6ThresholdSpec)| spec_expressions(e.1),
                    ),
                    text::views(r@) == all.take(i as int).flatten(),
                decreases m.order().len() - i,
            {
                let mut part = expressions_in(&m.entry(i).1);
                let ghost before = r@;
                let ghost added = part@;
                r.append(&mut part);
                proof {
                    assert(all.take(i + 1) =~= all.take(i as int).push(text::views(added)));
                    all.take(i as int).lemma_flatten_push(text::views(added));
                    assert(text::views(r@) =~= text::views(before) + text::views(added));
                }
                i += 1;
            }
            assert(all.take(m.order().len() as int) =~= all);
        }
        r
    }
}

// ── scenarios ──

#[verifier::ext_equal]
pub struct ScenarioView {
    pub execution: ExecutionView,
    pub env: Map<Seq<char>, String>,
    pub tags: Map<Seq<char>, String>,
    pub start_time: Seq<char>,
    pub exec_name: Option<Seq<char>>,
}

impl View for ScenarioConfig {
    type V = ScenarioView;

    open spec fn view(&self) -> ScenarioView {
        ScenarioView {
            execution: self.execution@,
            env: self.env@,
            tags: self.tags@,
            start_time: self.start_time@,
            exec_name: text::opt_text(self.exec_name),
        }
    }
}

/// A scenario that has a load profile. It starts at once by default.
pub open spec fn declared_scenario(s: K6Scenario, execution: ExecutionView) -> ScenarioView {
    ScenarioView {
        execution,
        env: s.env@,
        tags: s.tags@,
        start_time: text_or(s.start_time, "0s"@),
        exec_name: text::opt_text(s.exec_name),
    }
}

/// The scenarios that have a load profile. The others are left out.
pub open spec fn declared_scenarios(m: Map<Seq<char>, K6Scenario>) -> Map<Seq<char>, ScenarioView> {
    Map::new(
        |name: Seq<char>| m.contains_key(name) && scenario_execution(m[name]) is Some,
        |name: Seq<char>| declared_scenario(m[name], scenario_execution(m[name])->0),
    )
}

pub open spec fn scenario_map(m: Map<Seq<char>, ScenarioConfig>) -> Map<Seq<char>, ScenarioView> {
    m.map_values(|c: ScenarioConfig| c@)
}

fn convert_scenarios(m: &StringMap<K6Scenario>) -> (r: StringMap<ScenarioConfig>)
    ensures
        scenario_map(r@) == declared_scenarios(m@),
{
    let mut out: StringMap<ScenarioConfig> = StringMap::new();
    let mut i: usize = 0;
    assert(scenario_map(out@) =~= declared_scenarios(string_map::map_of(m.order().take(0))));
    while i < m.len()
        invariant
            i <= m.order().len(),
            scenario_map(out@) == declared_scenarios(string_map::map_of(m.order().take(i as int))),
        decreases m.order().len() - i,
    {
        let entry = m.entry(i);
        let scenario = &entry.1;
        let ghost seen = m.order().take(i as int);
        proof {
            assert(m.order().take(i + 1).drop_last() =~= seen);
            assert forall|j: int| 0 <= j < seen.len() implies (#[trigger] seen[j]).0@
                != entry.0@ by {
                assert(seen[j] == m.order()[j]);
            }
            string_map::lemma_map_of_absent(seen, entry.0@);
        }
        let ghost before = string_map::map_of(seen);
        let ghost after = string_map::map_of(m.order().take(i + 1));
        assert(after == before.insert(entry.0@, entry.1));
        match scenario.to_execution() {
            Some(execution) => {
                let config = ScenarioConfig {
                    execution,
                    env: scenario.env.copy(),
                    tags: scenario.tags.copy(),
                    start_time: text::copied_or(&scenario.start_time, "0s"),
                    exec_name: text::copied(&scenario.exec_name),
                };
                let ghost was = out@;
                out.insert(entry.0.clone(), config);
                assert(scenario_map(out@) =~= scenario_map(was).insert(entry.0@, config@));
                assert(declared_scenarios(after) =~= declared_scenarios(before).insert(
                    entry.0@,
                    config@,
                ));
            },
            None => {
                assert(declared_scenarios(after) =~= declared_scenarios(before));
            },
        }
        i += 1;
    }
    proof {
        assert(m.order().take(m.order().len() as int) =~= m.order());
        m.lemma_view();
    }
    out
}

// ── all of it ──

#[verifier::ext_equal]
pub struct DeclaredView {
    pub execution: Option<ExecutionView>,
    pub scenarios: Option<Map<Seq<char>, ScenarioView>>,
    pub thresholds: Map<Seq<char>, ThresholdView>,
    pub discard_response_bodies: Option<bool>,
    pub summary_trend_stats: Option<Seq<String>>,
    pub dns_ttl: Option<Seq<char>>,
    pub dns_select: Option<Seq<char>>,
    pub dns_policy: Option<Seq<char>>,
    pub no_connection_reuse: Option<bool>,
    pub no_vu_connection_reuse: Option<bool>,
    pub rps: Option<Binary64>,
    pub hosts: Option<Map<Seq<char>, String>>,
    pub blacklist_ips: Option<Seq<String>>,
    pub insecure_skip_tls_verify: Option<bool>,
}

pub open spec fn opt_list(v: Option<Vec<String>>) -> Option<Seq<String>> {
    match v {
        Some(v) => Some(v@),
        None => None,
    }
}

pub open spec fn opt_map(m: Option<StringMap<String>>) -> Option<Map<Seq<char>, String>> {
    match m {
        Some(m) => Some(m@),
        None => None,
    }
}

pub open spec fn opt_scenarios(m: Option<StringMap<ScenarioConfig>>) -> Option<
    Map<Seq<char>, ScenarioView>,
> {
    match m {
        Some(m) => Some(scenario_map(m@)),
        None => None,
    }
}

impl View for DriverDeclaredOptions {
    type V = DeclaredView;

    open spec fn view(&self) -> DeclaredView {
        DeclaredView {
            execution: opt_execution(self.execution),
            scenarios: opt_scenarios(self.scenarios),
            thresholds: threshold_map(self.thresholds@),
            discard_response_bodies: self.discard_response_bodies,
            summary_trend_stats: opt_list(self.summary_trend_stats),
            dns_ttl: text::opt_text(self.dns_ttl),
            dns_select: text::opt_text(self.dns_select),
            dns_policy: text::opt_text(self.dns_policy),
            no_connection_reuse: self.no_connection_reuse,
            no_vu_connection_reuse: self.no_vu_connection_reuse,
            rps: self.rps,
            hosts: opt_map(self.hosts),
            blacklist_ips: opt_list(self.blacklist_ips),
            insecure_skip_tls_verify: self.insecure_skip_tls_verify,
        }
    }
}

/// The declared options with the given load profile, scenarios and thresholds.
/// All the other ones are taken over as they are.
pub open spec fn declared_with(
    o: K6Options,
    execution: Option<ExecutionView>,
    scenarios: Option<Map<Seq<char>, ScenarioView>>,
    thresholds: Map<Seq<char>, ThresholdView>,
) -> DeclaredView {
    DeclaredView {
        execution,
        scenarios,
        thresholds,
        discard_response_bodies: o.discard_response_bodies,
        summary_trend_stats: opt_list(o.summary_trend_stats),
        dns_ttl: match o.dns {
            Some(dns) => text::opt_text(dns.ttl),
            None => None,
        },
        dns_select: match o.dns {
            Some(dns) => text::opt_text(dns.select),
            None => None,
        },
        dns_policy: match o.dns {
            Some(dns) => text::opt_text(dns.policy),
            None => None,
        },
        no_connection_reuse: o.no_connection_reuse,
        no_vu_connection_reuse: o.no_vu_connection_reuse,
        rps: o.rps,
        hosts: opt_map(o.hosts),
        blacklist_ips: opt_list(o.blacklist_ips),
        insecure_skip_tls_verify: o.insecure_skip_tls_verify,
    }
}

/// The named scenarios that have a load profile.
pub open spec fn named_scenarios(o: K6Options) -> Map<Seq<char>, ScenarioView> {
    match o.scenarios {
        Some(m) => declared_scenarios(m@),
        None => Map::empty(),
    }
}

/// Whether an option is declared that stands beside a load profile. Empty lists
/// and maps declare nothing.
pub open spec fn declares_setting(o: K6Options) -> bool {
    ||| o.discard_response_bodies is Some
    ||| o.summary_trend_stats matches Some(v) && v@.len() > 0
    ||| o.dns is Some
    ||| o.no_connection_reuse is Some
    ||| o.no_vu_connection_reuse is Some
    ||| o.rps is Some
    ||| o.hosts matches Some(m) && m@ != Map::<Seq<char>, String>::empty()
    ||| o.blacklist_ips matches Some(v) && v@.len() > 0
    ||| o.insecure_skip_tls_verify is Some
}

/// What the runner is told. Named scenarios come before the profile at the top
/// level. Nothing is told where nothing is declared.
pub open spec fn declared(o: K6Options, rounded: Map<Seq<char>, String>) -> Option<DeclaredView> {
    let thresholds = declared_thresholds(o, rounded);
    let scenarios = named_scenarios(o);
    if scenarios != Map::<Seq<char>, ScenarioView>::empty() {
        Some(declared_with(o, None, Some(scenarios), thresholds))
    } else if top_execution(o) is Some || thresholds != Map::<Seq<char>, ThresholdView>::empty()
        || declares_setting(o) {
        Some(declared_with(o, top_execution(o), None, thresholds))
    } else {
        None
    }
}

proof fn lemma_empty_maps(m: Map<Seq<char>, ScenarioConfig>, t: Map<Seq<char>, ThresholdConfig>)
    ensures
        (scenario_map(m) == Map::<Seq<char>, ScenarioView>::empty()) == (m == Map::<
            Seq<char>,
            ScenarioConfig,
        >::empty()),
        (threshold_map(t) == Map::<Seq<char>, ThresholdView>::empty()) == (t == Map::<
            Seq<char>,
            ThresholdConfig,
        >::empty()),
{
    if scenario_map(m) == Map::<Seq<char>, ScenarioView>::empty() {
        assert forall|k: Seq<char>| !m.contains_key(k) by {
            assert(!scenario_map(m).contains_key(k));
        }
        assert(m =~= Map::empty());
    } else {
        assert(m != Map::<Seq<char>, ScenarioConfig>::empty()) by {
            if m == Map::<Seq<char>, ScenarioConfig>::empty() {
                assert(scenario_map(m) =~= Map::empty());
            }
        }
    }
    if threshold_map(t) == Map::<Seq<char>, ThresholdView>::empty() {
        assert forall|k: Seq<char>| !t.contains_key(k) by {
            assert(!threshold_map(t).contains_key(k));
        }
        assert(t =~= Map::empty());
    } else {
        assert(t != Map::<Seq<char>, ThresholdConfig>::empty()) by {
            if t == Map::<Seq<char>, ThresholdConfig>::empty() {
                assert(threshold_map(t) =~= Map::empty());
            }
        }
    }
}

fn some_items(v: &Option<Vec<String>>) -> (r: bool)
    ensures
        r == (*v matches Some(v) && v@.len() > 0),
{
    match v {
        Some(v) => v.len() > 0,
        None => false,
    }
}

fn copied_items(v: &Option<Vec<String>>) -> (r: Option<Vec<String>>)
    ensures
        opt_list(r) == opt_list(*v),
{
    match v {
        Some(v) => Some(text::copied_list(v)),
        None => None,
    }
}

impl K6Options {
    fn declare(
        &self,
        execution: Option<ExecutionConfig>,
        scenarios: Option<StringMap<ScenarioConfig>>,
        thresholds: StringMap<ThresholdConfig>,
    ) -> (r: DriverDeclaredOptions)
        ensures
            r@ == declared_with(
                *self,
                opt_execution(execution),
                opt_scenarios(scenarios),
                threshold_map(thresholds@),
            ),
    {
        let (dns_ttl, dns_select, dns_policy) = match &self.dns {
            Some(dns) => (
                text::copied(&dns.ttl),
                text::copied(&dns.select),
                text::copied(&dns.policy),
            ),
            None => (None, None, None),
        };
        let hosts = match &self.hosts {
            Some(m) => Some(m.copy()),
            None => None,
        };
        DriverDeclaredOptions {
            execution,
            scenarios,
            thresholds,
            discard_response_bodies: self.discard_response_bodies,
            summary_trend_stats: copied_items(&self.summary_trend_stats),
            dns_ttl,
            dns_select,
            dns_policy,
            no_connection_reuse: self.no_connection_reuse,
            no_vu_connection_reuse: self.no_vu_connection_reuse,
            rps: self.rps,
            hosts,
            blacklist_ips: copied_items(&self.blacklist_ips),
            insecure_skip_tls_verify: self.insecure_skip_tls_verify,
        }
    }

    fn has_setting(&self) -> (r: bool)
        ensures
            r == declares_setting(*self),
    {
        let some_host = match &self.hosts {
            Some(m) => !m.is_empty(),
            None => false,
        };
        self.discard_response_bodies.is_some() || some_items(&self.summary_trend_stats)
            || self.dns.is_some() || self.no_connection_reuse.is_some()
            || self.no_vu_connection_reuse.is_some() || self.rps.is_some() || some_host
            || some_items(&self.blacklist_ips) || self.insecure_skip_tls_verify.is_some()
    }

    /// What the runner is told of the options; nothing where nothing is declared.
    pub fn to_declared(&self, rounded: &StringMap<String>) -> (r: Option<DriverDeclaredOptions>)
        ensures
            match r {
                Some(d) => declared(*self, rounded@) == Some(d@),
                None => declared(*self, rounded@) is None,
            },
    {
        let thresholds = self.convert_thresholds(rounded);
        if let Some(m) = &self.scenarios {
            let scenarios = convert_scenarios(m);
            proof {
                lemma_empty_maps(scenarios@, thresholds@);
            }
            if !scenarios.is_empty() {
                return Some(self.declare(None, Some(scenarios), thresholds));
            }
        }
        let execution = self.to_execution();
        proof {
            lemma_empty_maps(Map::empty(), thresholds@);
        }
        if execution.is_none() && thresholds.is_empty() && !self.has_setting() {
            return None;
        }
        Some(self.declare(execution, None, thresholds))
    }
}

// ── a script ──

/// What reading the options of a script gave.
#[derive(Debug)]
pub enum OptionsRead {
    /// The script cannot be read, or declares none.
    Absent,
    /// The script declares options that cannot be read, for this cause.
    Malformed(String),
    Read(K6Options),
}

/// What the runner is told of a script. Options that cannot be read are an error: a
/// run with another profile than the declared one would look like a success.
pub fn declared_options(read: &OptionsRead, rounded: &StringMap<String>) -> (r: Result<
    Option<DriverDeclaredOptions>,
    String,
>)
    ensures
        match (*read, r) {
            (OptionsRead::Absent, Ok(None)) => true,
            (OptionsRead::Malformed(cause), Err(m)) => m@ == scripts::bad_options(cause@),
            (OptionsRead::Read(o), Ok(Some(d))) => declared(o, rounded@) == Some(d@),
            (OptionsRead::Read(o), Ok(None)) => declared(o, rounded@) is None,
            _ => false,
        },
{
    match read {
        OptionsRead::Absent => Ok(None),
        OptionsRead::Malformed(cause) => Err(scripts::options_error(cause.as_str())),
        OptionsRead::Read(o) => Ok(o.to_declared(rounded)),
    }
}

// ── laws ──

/// An arrival-rate scenario never has fewer virtual users than it allocates in
/// advance, and has as many where it does not say how many.
pub proof fn law_max_vus_cover_the_pre_allocated(s: K6Scenario)
    ensures
        scenario_execution(s) matches Some(ExecutionView::ConstantArrivalRate {
            pre_alloc_vus,
            max_vus,
            ..
        }) ==> max_vus >= pre_alloc_vus && (s.max_vus is None ==> max_vus == pre_alloc_vus),
        scenario_execution(s) matches Some(ExecutionView::RampingArrivalRate {
            pre_alloc_vus,
            max_vus,
            ..
        }) ==> max_vus >= pre_alloc_vus && (s.max_vus is None ==> max_vus == pre_alloc_vus),
{
}

/// An arrival-rate scenario that allocates no virtual users in advance has no
/// load profile, and so is left out.
pub proof fn law_arrival_rate_needs_pre_allocated_vus(
    m: Map<Seq<char>, K6Scenario>,
    name: Seq<char>,
)
    requires
        m.contains_key(name),
        m[name].executor@ == "constant-arrival-rate"@ || m[name].executor@
            == "ramping-arrival-rate"@,
        m[name].pre_allocated_vus is None,
    ensures
        !declared_scenarios(m).contains_key(name),
{
    lemma_executors_differ();
}

proof fn lemma_executors_differ()
    ensures
        "constant-arrival-rate"@.len() == 21,
        "ramping-arrival-rate"@.len() == 20,
        "constant-vus"@.len() == 12,
        "ramping-vus"@.len() == 11,
        "shared-iterations"@.len() == 17,
        "per-vu-iterations"@.len() == 17,
        "externally-controlled"@.len() == 21,
        "externally-controlled"@ != "constant-arrival-rate"@,
{
    reveal_strlit("constant-arrival-rate");
    reveal_strlit("ramping-arrival-rate");
    reveal_strlit("constant-vus");
    reveal_strlit("ramping-vus");
    reveal_strlit("shared-iterations");
    reveal_strlit("per-vu-iterations");
    reveal_strlit("externally-controlled");
    assert("externally-controlled"@[0] != "constant-arrival-rate"@[0]);
}

/// Where a named scenario has a load profile, the profile at the top level is not
/// used, and every scenario with a profile is declared.
pub proof fn law_named_scenarios_come_first(
    o: K6Options,
    name: Seq<char>,
    rounded: Map<Seq<char>, String>,
)
    requires
        o.scenarios matches Some(m) && m@.contains_key(name) && scenario_execution(
            m@[name],
        ) is Some,
    ensures
        declared(o, rounded) matches Some(d) && d.execution is None && d.scenarios == Some(
            declared_scenarios(o.scenarios->0@),
        ) && declared_scenarios(o.scenarios->0@).contains_key(name),
{
    let scenarios = named_scenarios(o);
    assert(scenarios.contains_key(name));
    assert(!Map::<Seq<char>, ScenarioView>::empty().contains_key(name));
}

/// A setting is not lost where no load profile is declared.
pub proof fn law_settings_need_no_load_profile(o: K6Options, rounded: Map<Seq<char>, String>)
    requires
        declares_setting(o) || declared_thresholds(o, rounded) != Map::<
            Seq<char>,
            ThresholdView,
        >::empty(),
    ensures
        declared(o, rounded) matches Some(d) && d == declared_with(
            o,
            d.execution,
            d.scenarios,
            declared_thresholds(o, rounded),
        ),
{
}

/// Nothing is told exactly where there is no profile, no threshold and no setting.
pub proof fn law_nothing_declared(o: K6Options, rounded: Map<Seq<char>, String>)
    ensures
        declared(o, rounded) is None <==> {
            &&& top_execution(o) is None
            &&& named_scenarios(o) == Map::<Seq<char>, ScenarioView>::empty()
            &&& declared_thresholds(o, rounded) == Map::<Seq<char>, ThresholdView>::empty()
            &&& !declares_setting(o)
        },
{
}

/// A duration alone runs one virtual user.
pub proof fn law_duration_alone_runs_one_vu(o: K6Options)
    requires
        o.stages is None,
        o.iterations is None,
        o.vus is None,
        o.duration is Some,
    ensures
        top_execution(o) == Some(
            ExecutionView::ConstantVus {
                vus: 1,
                duration: o.duration->0@,
                graceful_stop: text::opt_text(o.graceful_stop),
            },
        ),
{
}

/// The keys of two thresholds of one metric differ.
pub proof fn law_threshold_keys_differ(metric: Seq<char>, i: nat, j: nat)
    requires
        i != j,
    ensures
        threshold_key(metric, i) != threshold_key(metric, j),
{
    reveal_strlit("#");
    if i == 0 || j == 0 {
        let n = i + j;
        assert(threshold_key(metric, n).len() > metric.len());
    } else {
        text::lemma_decimal_injective(i, j);
        let a = threshold_key(metric, i);
        let b = threshold_key(metric, j);
        if a == b {
            assert(a.skip(metric.len() as int + 1) =~= text::decimal(i));
            assert(b.skip(metric.len() as int + 1) =~= text::decimal(j));
        }
    }
}

/// Every threshold of a metric is kept, under a key of its own.
pub proof fn law_each_threshold_is_kept(
    m: Map<Seq<char>, ThresholdView>,
    metric: Seq<char>,
    configs: Seq<ThresholdView>,
    i: int,
)
    requires
        0 <= i < configs.len(),
    ensures
        with_thresholds(m, metric, configs).contains_key(threshold_key(metric, i as nat)),
        with_thresholds(m, metric, configs)[threshold_key(metric, i as nat)] == configs[i],
    decreases configs.len(),
{
    if i < configs.len() - 1 {
        law_each_threshold_is_kept(m, metric, configs.drop_last(), i);
        law_threshold_keys_differ(metric, i as nat, (configs.len() - 1) as nat);
    }
}

/// Each stage of the profile at the top level is the one that was declared at its
/// place: there are as many, each has its own duration, and its own target without
/// the fraction.
pub proof fn law_each_stage_is_kept(o: K6Options, i: int)
    requires
        o.stages matches Some(v) && 0 <= i < v@.len(),
    ensures
        top_execution(o) matches Some(ExecutionView::RampingVus { stages, .. }) && {
            &&& stages.len() == o.stages->0@.len()
            &&& stages[i].duration == o.stages->0@[i].duration@
            &&& stages[i].target == binary64::saturated(o.stages->0@[i].target, 0xffff_ffff)
        },
{
}

/// Stages come before every other profile at the top level. They start from the
/// declared number of virtual users, or from one.
pub proof fn law_stages_ramp_from_the_declared_vus(o: K6Options)
    requires
        o.stages matches Some(v) && v@.len() > 0,
    ensures
        top_execution(o) matches Some(
            ExecutionView::RampingVus { start_vus, graceful_ramp_down, graceful_stop, .. },
        ) && {
            &&& start_vus == (if o.vus is Some {
                o.vus->0
            } else {
                1
            })
            &&& graceful_ramp_down is Some <==> o.graceful_ramp_down is Some
            &&& graceful_ramp_down is Some ==> graceful_ramp_down->0 == o.graceful_ramp_down->0@
            &&& graceful_stop is Some <==> o.graceful_stop is Some
            &&& graceful_stop is Some ==> graceful_stop->0 == o.graceful_stop->0@
        },
{
}

/// Without stages, iterations are shared: as many as declared, in no more than the
/// declared time, by the declared virtual users, or by one.
pub proof fn law_iterations_are_shared(o: K6Options)
    requires
        o.stages is None || o.stages->0@.len() == 0,
        o.iterations is Some,
    ensures
        top_execution(o) matches Some(
            ExecutionView::SharedIterations { iterations, max_duration, vus, graceful_stop },
        ) && {
            &&& iterations == o.iterations->0
            &&& vus == (if o.vus is Some {
                o.vus->0
            } else {
                1
            })
            &&& max_duration is Some <==> o.max_duration is Some
            &&& max_duration is Some ==> max_duration->0 == o.max_duration->0@
            &&& graceful_stop is Some <==> o.graceful_stop is Some
            &&& graceful_stop is Some ==> graceful_stop->0 == o.graceful_stop->0@
        },
{
}

/// Without stages and iterations, a duration runs the declared virtual users, or
/// one, for that time. Without any of the three there is no profile.
pub proof fn law_duration_is_run(o: K6Options)
    requires
        o.stages is None || o.stages->0@.len() == 0,
        o.iterations is None,
    ensures
        o.duration is None ==> top_execution(o) is None,
        o.duration is Some ==> (top_execution(o) matches Some(
            ExecutionView::ConstantVus { vus, duration, graceful_stop },
        ) && {
            &&& duration == o.duration->0@
            &&& vus == (if o.vus is Some {
                o.vus->0
            } else {
                1
            })
            &&& graceful_stop is Some <==> o.graceful_stop is Some
            &&& graceful_stop is Some ==> graceful_stop->0 == o.graceful_stop->0@
        }),
{
}

/// A constant scenario needs virtual users and a duration, and runs just those.
pub proof fn law_constant_vus(s: K6Scenario)
    requires
        s.executor@ == "constant-vus"@,
    ensures
        scenario_execution(s) is Some <==> s.vus is Some && s.duration is Some,
        scenario_execution(s) is Some ==> (scenario_execution(s) matches Some(
            ExecutionView::ConstantVus { vus, duration, graceful_stop },
        ) && {
            &&& vus == s.vus->0
            &&& duration == s.duration->0@
            &&& graceful_stop is Some <==> s.graceful_stop is Some
            &&& graceful_stop is Some ==> graceful_stop->0 == s.graceful_stop->0@
        }),
{
}

/// A ramping scenario keeps each stage at its place. It starts from `startVUs`,
/// else from the virtual users, else from one.
pub proof fn law_ramping_vus(s: K6Scenario, i: int)
    requires
        s.executor@ == "ramping-vus"@,
    ensures
        scenario_execution(s) matches Some(
            ExecutionView::RampingVus { stages, start_vus, graceful_ramp_down, graceful_stop },
        ) && {
            &&& s.stages is None ==> stages.len() == 0
            &&& s.stages is Some ==> stages.len() == s.stages->0@.len()
            &&& s.stages is Some && 0 <= i < s.stages->0@.len() ==> stages[i].duration
                == s.stages->0@[i].duration@ && stages[i].target == binary64::saturated(
                s.stages->0@[i].target,
                0xffff_ffff,
            )
            &&& s.start_vus is Some ==> start_vus == s.start_vus->0
            &&& s.start_vus is None && s.vus is Some ==> start_vus == s.vus->0
            &&& s.start_vus is None && s.vus is None ==> start_vus == 1
            &&& graceful_ramp_down is Some <==> s.graceful_ramp_down is Some
            &&& graceful_ramp_down is Some ==> graceful_ramp_down->0 == s.graceful_ramp_down->0@
            &&& graceful_stop is Some <==> s.graceful_stop is Some
            &&& graceful_stop is Some ==> graceful_stop->0 == s.graceful_stop->0@
        },
{
    lemma_executors_differ();
}

/// Shared iterations need their number, and are run by the declared virtual users,
/// or by one, in no more than the declared time.
pub proof fn law_shared_iterations(s: K6Scenario)
    requires
        s.executor@ == "shared-iterations"@,
    ensures
        scenario_execution(s) is Some <==> s.iterations is Some,
        scenario_execution(s) is Some ==> (scenario_execution(s) matches Some(
            ExecutionView::SharedIterations { iterations, max_duration, vus, graceful_stop },
        ) && {
            &&& iterations == s.iterations->0
            &&& s.vus is Some ==> vus == s.vus->0
            &&& s.vus is None ==> vus == 1
            &&& max_duration is Some <==> s.max_duration is Some
            &&& max_duration is Some ==> max_duration->0 == s.max_duration->0@
            &&& graceful_stop is Some <==> s.graceful_stop is Some
            &&& graceful_stop is Some ==> graceful_stop->0 == s.graceful_stop->0@
        }),
{
    lemma_executors_differ();
}

/// Iterations of each virtual user need their number, and are run by the declared
/// virtual users, or by one, in no more than the declared time.
pub proof fn law_per_vu_iterations(s: K6Scenario)
    requires
        s.executor@ == "per-vu-iterations"@,
    ensures
        scenario_execution(s) is Some <==> s.iterations is Some,
        scenario_execution(s) is Some ==> (scenario_execution(s) matches Some(
            ExecutionView::PerVUIterations { iterations, max_duration, vus, graceful_stop },
        ) && {
            &&& iterations == s.iterations->0
            &&& s.vus is Some ==> vus == s.vus->0
            &&& s.vus is None ==> vus == 1
            &&& max_duration is Some <==> s.max_duration is Some
            &&& max_duration is Some ==> max_duration->0 == s.max_duration->0@
            &&& graceful_stop is Some <==> s.graceful_stop is Some
            &&& graceful_stop is Some ==> graceful_stop->0 == s.graceful_stop->0@
        }),
{
    lemma_executors_differ();
    reveal_strlit("shared-iterations");
    reveal_strlit("per-vu-iterations");
    assert("shared-iterations"@[0] != "per-vu-iterations"@[0]);
}

/// A constant arrival rate needs virtual users in advance, a rate and a duration.
/// It keeps them, and counts by the second where it does not say otherwise.
pub proof fn law_constant_arrival_rate(s: K6Scenario)
    requires
        s.executor@ == "constant-arrival-rate"@,
    ensures
        scenario_execution(s) is Some <==> s.pre_allocated_vus is Some && s.rate is Some
            && s.duration is Some,
        scenario_execution(s) is Some ==> (scenario_execution(s) matches Some(
            ExecutionView::ConstantArrivalRate {
                rate,
                time_unit,
                duration,
                pre_alloc_vus,
                max_vus,
                graceful_stop,
            },
        ) && {
            &&& rate == s.rate->0
            &&& duration == s.duration->0@
            &&& s.time_unit is Some ==> time_unit == s.time_unit->0@
            &&& s.time_unit is None ==> time_unit == "1s"@
            &&& pre_alloc_vus == s.pre_allocated_vus->0
            &&& s.max_vus is Some && s.max_vus->0 >= pre_alloc_vus ==> max_vus == s.max_vus->0
            &&& s.max_vus is Some && s.max_vus->0 < pre_alloc_vus ==> max_vus == pre_alloc_vus
            &&& s.max_vus is None ==> max_vus == pre_alloc_vus
            &&& graceful_stop is Some <==> s.graceful_stop is Some
            &&& graceful_stop is Some ==> graceful_stop->0 == s.graceful_stop->0@
        }),
{
    lemma_executors_differ();
}

/// A ramping arrival rate needs virtual users in advance. It starts from the
/// declared rate, or from none, and keeps each stage at its place, with the whole
/// rate that it aims at.
pub proof fn law_ramping_arrival_rate(s: K6Scenario, i: int)
    requires
        s.executor@ == "ramping-arrival-rate"@,
    ensures
        scenario_execution(s) is Some <==> s.pre_allocated_vus is Some,
        scenario_execution(s) is Some ==> (scenario_execution(s) matches Some(
            ExecutionView::RampingArrivalRate {
                start_rate,
                stages,
                time_unit,
                pre_alloc_vus,
                max_vus,
                graceful_stop,
            },
        ) && {
            &&& s.start_rate is Some ==> start_rate == s.start_rate->0
            &&& s.start_rate is None ==> start_rate.bits == 0
            &&& s.stages is None ==> stages.len() == 0
            &&& s.stages is Some ==> stages.len() == s.stages->0@.len()
            &&& s.stages is Some && 0 <= i < s.stages->0@.len() ==> stages[i].duration
                == s.stages->0@[i].duration@ && stages[i].target == s.stages->0@[i].target
            &&& s.time_unit is Some ==> time_unit == s.time_unit->0@
            &&& s.time_unit is None ==> time_unit == "1s"@
            &&& pre_alloc_vus == s.pre_allocated_vus->0
            &&& s.max_vus is Some && s.max_vus->0 >= pre_alloc_vus ==> max_vus == s.max_vus->0
            &&& s.max_vus is Some && s.max_vus->0 < pre_alloc_vus ==> max_vus == pre_alloc_vus
            &&& s.max_vus is None ==> max_vus == pre_alloc_vus
            &&& graceful_stop is Some <==> s.graceful_stop is Some
            &&& graceful_stop is Some ==> graceful_stop->0 == s.graceful_stop->0@
        }),
{
    lemma_executors_differ();
}

/// A scenario that is controlled from outside always has a profile: one virtual
/// user of at most ten, where it does not say otherwise.
pub proof fn law_externally_controlled(s: K6Scenario)
    requires
        s.executor@ == "externally-controlled"@,
    ensures
        scenario_execution(s) matches Some(
            ExecutionView::ExternallyControlled { vus, max_vus, duration, graceful_stop },
        ) && {
            &&& s.vus is Some ==> vus == s.vus->0
            &&& s.vus is None ==> vus == 1
            &&& s.max_vus is Some ==> max_vus == s.max_vus->0
            &&& s.max_vus is None ==> max_vus == 10
            &&& duration is Some <==> s.duration is Some
            &&& duration is Some ==> duration->0 == s.duration->0@
            &&& graceful_stop is Some <==> s.graceful_stop is Some
            &&& graceful_stop is Some ==> graceful_stop->0 == s.graceful_stop->0@
        },
{
    lemma_executors_differ();
}

/// A scenario with an executor that k6 does not have is left out.
pub proof fn law_unknown_executors_are_left_out(m: Map<Seq<char>, K6Scenario>, name: Seq<char>)
    requires
        m.contains_key(name),
        m[name].executor@ != "constant-vus"@,
        m[name].executor@ != "ramping-vus"@,
        m[name].executor@ != "shared-iterations"@,
        m[name].executor@ != "per-vu-iterations"@,
        m[name].executor@ != "constant-arrival-rate"@,
        m[name].executor@ != "ramping-arrival-rate"@,
        m[name].executor@ != "externally-controlled"@,
    ensures
        !declared_scenarios(m).contains_key(name),
{
}

/// A scenario keeps its environment, its tags and the function that it runs. It
/// starts when it says, or at once. No scenario is made up.
pub proof fn law_scenarios_keep_what_they_declare(m: Map<Seq<char>, K6Scenario>, name: Seq<char>)
    ensures
        declared_scenarios(m).contains_key(name) ==> {
            let d = declared_scenarios(m)[name];
            &&& m.contains_key(name)
            &&& Some(d.execution) == scenario_execution(m[name])
            &&& d.env == m[name].env@
            &&& d.tags == m[name].tags@
            &&& m[name].start_time is Some ==> d.start_time == m[name].start_time->0@
            &&& m[name].start_time is None ==> d.start_time == "0s"@
            &&& d.exec_name is Some <==> m[name].exec_name is Some
            &&& d.exec_name is Some ==> d.exec_name->0 == m[name].exec_name->0@
        },
{
}

/// Every setting reaches the runner as it was declared, whatever the profile.
pub proof fn law_settings_are_kept(o: K6Options, rounded: Map<Seq<char>, String>)
    ensures
        declared(o, rounded) matches Some(d) ==> {
            &&& d.discard_response_bodies == o.discard_response_bodies
            &&& d.no_connection_reuse == o.no_connection_reuse
            &&& d.no_vu_connection_reuse == o.no_vu_connection_reuse
            &&& d.insecure_skip_tls_verify == o.insecure_skip_tls_verify
            &&& d.rps == o.rps
            &&& d.summary_trend_stats is Some <==> o.summary_trend_stats is Some
            &&& d.summary_trend_stats is Some ==> d.summary_trend_stats->0
                == o.summary_trend_stats->0@
            &&& d.blacklist_ips is Some <==> o.blacklist_ips is Some
            &&& d.blacklist_ips is Some ==> d.blacklist_ips->0 == o.blacklist_ips->0@
            &&& d.hosts is Some <==> o.hosts is Some
            &&& d.hosts is Some ==> d.hosts->0 == o.hosts->0@
        },
{
}

/// The settings of name resolution reach the runner, each under its own name.
pub proof fn law_dns_settings_are_kept(o: K6Options, rounded: Map<Seq<char>, String>)
    ensures
        declared(o, rounded) matches Some(d) ==> {
            &&& d.dns_ttl is Some <==> o.dns is Some && o.dns->0.ttl is Some
            &&& d.dns_ttl is Some ==> d.dns_ttl->0 == o.dns->0.ttl->0@
            &&& d.dns_select is Some <==> o.dns is Some && o.dns->0.select is Some
            &&& d.dns_select is Some ==> d.dns_select->0 == o.dns->0.select->0@
            &&& d.dns_policy is Some <==> o.dns is Some && o.dns->0.policy is Some
            &&& d.dns_policy is Some ==> d.dns_policy->0 == o.dns->0.policy->0@
        },
{
}

/// Each single setting is enough for the runner to be told of the options; an empty
/// list or map is none.
pub proof fn law_what_counts_as_a_setting(o: K6Options)
    ensures
        declares_setting(o) <==> (o.discard_response_bodies is Some || o.no_connection_reuse is Some
            || o.no_vu_connection_reuse is Some || o.insecure_skip_tls_verify is Some || o.rps
            is Some || o.dns is Some || (o.summary_trend_stats is Some
            && o.summary_trend_stats->0@.len() > 0) || (o.blacklist_ips is Some
            && o.blacklist_ips->0@.len() > 0) || (o.hosts is Some && exists|k: Seq<char>|
            o.hosts->0@.contains_key(k))),
{
    if o.hosts is Some {
        let m = o.hosts->0@;
        if m != Map::<Seq<char>, String>::empty() {
            if forall|k: Seq<char>| !m.contains_key(k) {
                assert(m =~= Map::<Seq<char>, String>::empty());
            }
        }
    }
}

/// The profile at the top level is told where no named scenario has one, and the
/// thresholds are told with every profile.
pub proof fn law_profile_and_thresholds_are_told(o: K6Options, rounded: Map<Seq<char>, String>)
    ensures
        declared(o, rounded) matches Some(d) ==> {
            &&& d.thresholds == declared_thresholds(o, rounded)
            &&& d.scenarios is None ==> d.execution == top_execution(o)
            &&& d.scenarios is Some ==> d.execution is None
        },
        top_execution(o) is Some ==> declared(o, rounded) is Some,
        o.scenarios is None ==> (declared(o, rounded) matches Some(d) ==> d.scenarios is None),
{
}

/// An expression alone is a threshold that does not end the test.
pub proof fn law_single_threshold(
    metric: Seq<char>,
    declared: K6ThresholdSpec,
    rounded: Map<Seq<char>, String>,
)
    requires
        declared is Single,
    ensures
        ({
            let t = spec_thresholds(metric, declared, rounded);
            &&& t.len() == 1
            &&& t[0].expression == thresholds::translated(metric, declared->Single_0@, rounded)
            &&& !t[0].abort_on_fail
            &&& t[0].delay_abort_eval is None
        }),
{
}

/// An item of a list: a string is an expression that does not end the test; an
/// object has its expression under `threshold`, ends the test only where
/// `abortOnFail` is true, and keeps its delay; anything else declares nothing.
pub proof fn law_threshold_items(
    metric: Seq<char>,
    item: json::JsonView,
    rounded: Map<Seq<char>, String>,
)
    ensures
        item.node matches json::NodeView::Text(expr) ==> (item_threshold(metric, item, rounded)
            matches Some(t) && t.expression == thresholds::translated(metric, expr, rounded)
            && !t.abort_on_fail && t.delay_abort_eval is None),
        item.node is Object && (json::member(item, "threshold"@) matches Some(e) && e.node is Text)
            ==> (item_threshold(metric, item, rounded) matches Some(t) && {
            &&& t.expression == thresholds::translated(
                metric,
                json::member(item, "threshold"@)->0.node->Text_0,
                rounded,
            )
            &&& t.abort_on_fail <==> (json::member(item, "abortOnFail"@) matches Some(b) && b.node
                == json::NodeView::Bool(true))
            &&& t.delay_abort_eval is Some <==> (json::member(item, "delayAbortEval"@) matches Some(
                d,
            ) && d.node is Text)
            &&& t.delay_abort_eval is Some ==> json::member(item, "delayAbortEval"@)->0.node
                == json::NodeView::Text(t.delay_abort_eval->0)
        }),
        !(item.node is Text) && !(json::member(item, "threshold"@) matches Some(e) && e.node
            is Text) ==> item_threshold(metric, item, rounded) is None,
{
}

/// A list whose items all declare a threshold gives them all, in order.
pub proof fn law_threshold_lists_keep_their_order(
    metric: Seq<char>,
    items: Seq<json::JsonView>,
    rounded: Map<Seq<char>, String>,
    i: int,
)
    requires
        0 <= i < items.len(),
        forall|k: int|
            0 <= k < items.len() ==> item_threshold(metric, #[trigger] items[k], rounded) is Some,
    ensures
        item_thresholds(metric, items, rounded).len() == items.len(),
        Some(item_thresholds(metric, items, rounded)[i]) == item_threshold(
            metric,
            items[i],
            rounded,
        ),
    decreases items.len(),
{
    let front = items.drop_last();
    assert(item_threshold(metric, items[items.len() - 1], rounded) is Some);
    assert forall|k: int| 0 <= k < front.len() implies item_threshold(
        metric,
        #[trigger] front[k],
        rounded,
    ) is Some by {
        assert(front[k] == items[k]);
    }
    if i < front.len() {
        law_threshold_lists_keep_their_order(metric, front, rounded, i);
    } else if front.len() > 0 {
        law_threshold_lists_keep_their_order(metric, front, rounded, 0);
    } else {
        assert(item_thresholds(metric, front, rounded).len() == 0);
    }
}

/// An item that declares no threshold does not cost the others of its list.
pub proof fn law_other_items_are_passed_over(
    metric: Seq<char>,
    before: Seq<json::JsonView>,
    item: json::JsonView,
    after: Seq<json::JsonView>,
    rounded: Map<Seq<char>, String>,
)
    requires
        item_threshold(metric, item, rounded) is None,
    ensures
        item_thresholds(metric, before.push(item) + after, rounded) == item_thresholds(
            metric,
            before + after,
            rounded,
        ),
    decreases after.len(),
{
    let with = before.push(item) + after;
    let without = before + after;
    if after.len() == 0 {
        assert(with.drop_last() =~= without);
        assert(without =~= before);
    } else {
        law_other_items_are_passed_over(metric, before, item, after.drop_last(), rounded);
        assert(with.drop_last() =~= before.push(item) + after.drop_last());
        assert(without.drop_last() =~= before + after.drop_last());
    }
}

/// The first threshold of a metric stands under its name, and each later one under
/// the name, a `#` and its number.
pub proof fn law_threshold_keys(metric: Seq<char>, i: nat)
    ensures
        threshold_key(metric, 0) == metric,
        i > 0 ==> {
            let key = threshold_key(metric, i);
            &&& key.take(metric.len() as int) == metric
            &&& key[metric.len() as int] == '#'
            &&& key.skip(metric.len() as int + 1) == text::decimal(i)
        },
{
    reveal_strlit("#");
    if i > 0 {
        let key = threshold_key(metric, i);
        assert(key.take(metric.len() as int) =~= metric);
        assert(key.skip(metric.len() as int + 1) =~= text::decimal(i));
    }
}

proof fn lemma_other_keys_stay(
    m: Map<Seq<char>, ThresholdView>,
    metric: Seq<char>,
    configs: Seq<ThresholdView>,
    key: Seq<char>,
)
    requires
        forall|n: nat| n < configs.len() ==> #[trigger] threshold_key(metric, n) != key,
    ensures
        with_thresholds(m, metric, configs).contains_key(key) == m.contains_key(key),
        m.contains_key(key) ==> with_thresholds(m, metric, configs)[key] == m[key],
    decreases configs.len(),
{
    if configs.len() > 0 {
        lemma_other_keys_stay(m, metric, configs.drop_last(), key);
        assert(threshold_key(metric, (configs.len() - 1) as nat) != key);
    }
}

/// Each threshold of each metric is told, under its key, unless a later metric has
/// that key too.
pub proof fn law_every_metric_keeps_its_thresholds(
    metrics: Seq<(String, K6ThresholdSpec)>,
    rounded: Map<Seq<char>, String>,
    i: int,
    n: nat,
)
    requires
        0 <= i < metrics.len(),
        n < spec_thresholds(metrics[i].0@, metrics[i].1, rounded).len(),
        forall|j: int, k: nat|
            i < j < metrics.len() && k < spec_thresholds(
                (#[trigger] metrics[j]).0@,
                metrics[j].1,
                rounded,
            ).len() ==> #[trigger] threshold_key(metrics[j].0@, k) != threshold_key(
                metrics[i].0@,
                n,
            ),
    ensures
        all_thresholds(metrics, rounded).contains_key(threshold_key(metrics[i].0@, n)),
        all_thresholds(metrics, rounded)[threshold_key(metrics[i].0@, n)] == spec_thresholds(
            metrics[i].0@,
            metrics[i].1,
            rounded,
        )[n as int],
    decreases metrics.len(),
{
    let front = metrics.drop_last();
    let last = metrics[metrics.len() - 1];
    let configs = spec_thresholds(last.0@, last.1, rounded);
    if i == metrics.len() - 1 {
        law_each_threshold_is_kept(all_thresholds(front, rounded), last.0@, configs, n as int);
    } else {
        assert(front[i] == metrics[i]);
        assert forall|j: int, k: nat|
            i < j < front.len() && k < spec_thresholds(
                (#[trigger] front[j]).0@,
                front[j].1,
                rounded,
            ).len() implies #[trigger] threshold_key(front[j].0@, k) != threshold_key(
            front[i].0@,
            n,
        ) by {
            assert(front[j] == metrics[j]);
        }
        law_every_metric_keeps_its_thresholds(front, rounded, i, n);
        assert forall|k: nat| k < configs.len() implies #[trigger] threshold_key(last.0@, k)
            != threshold_key(metrics[i].0@, n) by {}
        lemma_other_keys_stay(
            all_thresholds(front, rounded),
            last.0@,
            configs,
            threshold_key(metrics[i].0@, n),
        );
    }
}

/// A key that is told belongs to a threshold of a metric: none is made up.
pub proof fn law_no_threshold_is_made_up(
    metrics: Seq<(String, K6ThresholdSpec)>,
    rounded: Map<Seq<char>, String>,
    key: Seq<char>,
)
    requires
        all_thresholds(metrics, rounded).contains_key(key),
    ensures
        exists|i: int, n: nat|
            0 <= i < metrics.len() && n < spec_thresholds(
                (#[trigger] metrics[i]).0@,
                metrics[i].1,
                rounded,
            ).len() && key == #[trigger] threshold_key(metrics[i].0@, n),
    decreases metrics.len(),
{
    if metrics.len() > 0 {
        let front = metrics.drop_last();
        let last = metrics[metrics.len() - 1];
        let configs = spec_thresholds(last.0@, last.1, rounded);
        if forall|n: nat| n < configs.len() ==> #[trigger] threshold_key(last.0@, n) != key {
            lemma_other_keys_stay(all_thresholds(front, rounded), last.0@, configs, key);
            law_no_threshold_is_made_up(front, rounded, key);
            let (i, n) = choose|i: int, n: nat|
                0 <= i < front.len() && n < spec_thresholds(
                    (#[trigger] front[i]).0@,
                    front[i].1,
                    rounded,
                ).len() && key == #[trigger] threshold_key(front[i].0@, n);
            assert(front[i] == metrics[i]);
            assert(key == threshold_key(metrics[i].0@, n));
        } else {
            let n = choose|n: nat| n < configs.len() && #[trigger] threshold_key(last.0@, n) == key;
            assert(key == threshold_key(metrics[metrics.len() - 1].0@, n));
        }
    }
}

/// A metric with thresholds of another shape than a string or a list declares none.
pub proof fn law_other_shapes_declare_nothing(
    metric: Seq<char>,
    declared: K6ThresholdSpec,
    rounded: Map<Seq<char>, String>,
)
    requires
        declared is Other,
    ensures
        spec_thresholds(metric, declared, rounded).len() == 0,
        spec_expressions(declared).len() == 0,
{
}

/// Every expression that a script declares is listed: one that stands alone, one in
/// a list, and one under `threshold` in an object of a list.
pub proof fn law_expressions_are_listed(
    o: K6Options,
    i: int,
    k: int,
    expr: Seq<char>,
)
    requires
        o.thresholds matches Some(m) && 0 <= i < m.order().len() && match m.order()[i].1 {
            K6ThresholdSpec::Single(e) => e@ == expr,
            K6ThresholdSpec::Array(items) => 0 <= k < items@.len() && (items@[k]@.node
                == json::NodeView::Text(expr) || (items@[k]@.node is Object && (json::member(
                items@[k]@,
                "threshold"@,
            ) matches Some(e) && e.node == json::NodeView::Text(expr)))),
            K6ThresholdSpec::Other(_) => false,
        },
    ensures
        expressions_of(o).contains(expr),
{
    let entries = o.thresholds->0.order();
    let all = entries.map_values(|e: (String, K6ThresholdSpec)| spec_expressions(e.1));
    assert(all[i] == spec_expressions(entries[i].1));
    match entries[i].1 {
        K6ThresholdSpec::Single(e) => {
            assert(all[i][0] == expr);
        },
        K6ThresholdSpec::Array(items) => {
            let lists = json::items_view(items@).map_values(
                |item: json::JsonView| item_expression(item),
            );
            assert(lists[k] == item_expression(items@[k]@));
            assert(lists[k][0] == expr);
            thresholds::lemma_flatten_contains(lists, k, expr);
        },
        K6ThresholdSpec::Other(_) => {},
    }
    assert(all[i].contains(expr));
    thresholds::lemma_flatten_contains(all, i, expr);
}

} // verus!
