//! One iteration of a script.
//!
//! The host runs the script engine and its timers. [`Iteration`] says what it has
//! to do next, in an order that a script can rely on: its timers are fired before
//! its samples are drained, also where it failed.

use crate::samples;
use crate::samples::Sample;
use crate::script_state::ScriptState;
use crate::text;
use vstd::prelude::*;
use vstd::string::*;

verus! {

// ── stopping ──

/// Whether an iteration is skipped: the test is to be stopped, and either flag
/// tells so.
pub fn is_stopped(local: bool, linked: Option<bool>) -> (r: bool)
    ensures
        r == (local || linked == Some(true)),
{
    local || linked == Some(true)
}

/// How long a sleep lasts before the flags are looked at again, in nanoseconds.
pub const SLEEP_SLICE: u128 = 10_000_000;

/// What a sleeping script does next.
#[derive(Debug, Clone, Copy, PartialEq, Eq, Structural)]
pub enum SleepStep {
    /// Sleep for so many nanoseconds and ask again.
    Sleep(u128),
    /// The sleep is over.
    Done,
    /// The test is stopped: the script is to be interrupted.
    Interrupt,
}

/// A sleep, by the nanoseconds that are left of it.
#[derive(Debug, Clone, Copy, PartialEq, Eq, Structural)]
pub struct SleepState {
    pub remaining: u128,
}

/// What a sleeping script does next: it sleeps on, in slices, until nothing is left
/// or the test is stopped.
pub open spec fn sleep_step(remaining: u128, stopped: bool) -> SleepStep {
    if remaining == 0 {
        SleepStep::Done
    } else if stopped {
        SleepStep::Interrupt
    } else if remaining < SLEEP_SLICE {
        SleepStep::Sleep(remaining)
    } else {
        SleepStep::Sleep(SLEEP_SLICE)
    }
}

impl SleepState {
    /// What to do next, and the time that is left after it.
    pub fn next(&mut self, stopped: bool) -> (r: SleepStep)
        ensures
            r == sleep_step(old(self).remaining, stopped),
            r == (if old(self).remaining == 0 {
                SleepStep::Done
            } else if stopped {
                SleepStep::Interrupt
            } else if old(self).remaining < SLEEP_SLICE {
                SleepStep::Sleep(old(self).remaining)
            } else {
                SleepStep::Sleep(SLEEP_SLICE)
            }),
            final(self).remaining == (match r {
                SleepStep::Sleep(n) => old(self).remaining - n,
                _ => old(self).remaining as int,
            }),
    {
        if self.remaining == 0 {
            return SleepStep::Done;
        }
        if stopped {
            return SleepStep::Interrupt;
        }
        let slice: u128 = if self.remaining < SLEEP_SLICE {
            self.remaining
        } else {
            SLEEP_SLICE
        };
        self.remaining = self.remaining - slice;
        SleepStep::Sleep(slice)
    }
}

/// The time slept in the first `n` steps of a sleep that nothing stops.
pub open spec fn slept(remaining: nat, n: nat) -> nat
    decreases n,
{
    if n == 0 || remaining == 0 {
        0
    } else {
        let slice = if remaining < SLEEP_SLICE {
            remaining
        } else {
            SLEEP_SLICE as nat
        };
        slice + slept((remaining - slice) as nat, (n - 1) as nat)
    }
}

/// A sleep that nothing stops lasts exactly as long as it was asked to, after so
/// many steps as it has slices.
pub proof fn law_sleep_lasts_its_time(remaining: nat, n: nat)
    requires
        n * SLEEP_SLICE >= remaining,
    ensures
        slept(remaining, n) == remaining,
    decreases n,
{
    if n > 0 && remaining > 0 {
        let slice = if remaining < SLEEP_SLICE {
            remaining
        } else {
            SLEEP_SLICE as nat
        };
        assert((n - 1) * SLEEP_SLICE == n * SLEEP_SLICE - SLEEP_SLICE) by (nonlinear_arith);
        if remaining < SLEEP_SLICE {
            assert((n - 1) * SLEEP_SLICE >= 0) by (nonlinear_arith)
                requires
                    n > 0,
            ;
        }
        law_sleep_lasts_its_time((remaining - slice) as nat, (n - 1) as nat);
    } else if n == 0 {
        assert(n * SLEEP_SLICE == 0) by (nonlinear_arith)
            requires
                n == 0,
        ;
    }
}

// ── the steps of an iteration ──

/// Something that the host did.
#[derive(Debug)]
pub enum IterationEvent {
    /// An iteration is due. The flags tell whether the test is to be stopped.
    Due { local: bool, linked: Option<bool> },
    BridgesRegistered,
    TimersReset,
    GlobalsSynced,
    /// The script returned, or failed with a message.
    Called(Result<(), String>),
    TimersPumped,
}

/// Something that the host has to do.
#[derive(Debug)]
pub enum IterationAction {
    /// Nothing: the test is to be stopped.
    Skip,
    /// Register the bridges of the script engine.
    Register,
    ResetTimers,
    SyncGlobals,
    CallEntry,
    PumpTimers,
    /// Hand the iteration over.
    Finish(IterationEnd),
    /// The event does not belong here; nothing changes.
    Unexpected,
}

/// What an iteration leaves.
#[derive(Debug)]
pub struct IterationEnd {
    pub samples: Vec<Sample>,
    /// Why the script asks to end the test.
    pub abort: Option<String>,
    /// Why the iteration failed.
    pub error: Option<String>,
}

/// Where an iteration stands.
#[derive(Debug, Clone, Copy, PartialEq, Eq, Structural)]
pub enum Stage {
    Idle,
    Registering,
    Resetting,
    Syncing,
    Calling,
    Pumping,
}

/// The iterations of one virtual user.
#[derive(Debug)]
pub struct Iteration {
    pub stage: Stage,
    pub bridges_registered: bool,
    /// What the call of the running iteration gave.
    pub failure: Option<String>,
}

// ── draining ──

/// A sample with the scenario as a tag, unless it has one.
pub open spec fn stamped(s: samples::SampleView, scenario: Seq<char>) -> samples::SampleView {
    if scenario.len() == 0 || s.tags.contains_key("scenario"@) {
        s
    } else {
        samples::SampleView { tags: s.tags.insert("scenario"@, scenario), ..s }
    }
}

/// All samples with the scenario as a tag.
pub open spec fn all_stamped(s: Seq<samples::SampleView>, scenario: Seq<char>) -> Seq<
    samples::SampleView,
> {
    s.map_values(|x: samples::SampleView| stamped(x, scenario))
}

fn stamp(sample: Sample, scenario: &str) -> (r: Sample)
    ensures
        r@ == stamped(sample@, scenario@),
{
    if text::empty(scenario) || sample.tags.contains_key("scenario") {
        return sample;
    }
    let mut tags = sample.tags;
    tags.set("scenario", scenario);
    Sample {
        metric: sample.metric,
        value: sample.value,
        tags,
        timestamp: sample.timestamp,
        sample_type: sample.sample_type,
    }
}

/// Takes the samples that a script recorded, each with the scenario as a tag.
pub fn drain(state: &mut ScriptState, scenario: &str) -> (r: Vec<Sample>)
    ensures
        samples::views(r@) == all_stamped(samples::views(old(state).samples@), scenario@),
        final(state).samples@.len() == 0,
        final(state).groups == old(state).groups,
        final(state).exec_state == old(state).exec_state,
        final(state).abort == old(state).abort,
{
    let mut taken: Vec<Sample> = Vec::new();
    std::mem::swap(&mut taken, &mut state.samples);
    let ghost all = taken@;
    let mut r: Vec<Sample> = Vec::new();
    let ghost want = all_stamped(samples::views(all), scenario@);
    for sample in it: taken
        invariant
            it.seq() == all,
            want == all_stamped(samples::views(all), scenario@),
            samples::views(r@) == want.take(it.index() as int),
    {
        let ghost before = r@;
        let one = stamp(sample, scenario);
        r.push(one);
        assert(samples::views(r@) =~= samples::views(before).push(one@));
        assert(want.take(it.index() + 1) =~= want.take(it.index() as int).push(
            want[it.index() as int],
        ));
    }
    assert(want.take(all.len() as int) =~= want);
    r
}

/// The message of an iteration that failed.
pub open spec fn failure_text(error: Option<Seq<char>>) -> Option<Seq<char>> {
    match error {
        Some(e) => Some("k6 iteration failed: "@ + e),
        None => None,
    }
}

/// The action that follows an event.
pub open spec fn follows(
    it: Iteration,
    event: IterationEvent,
    action: IterationAction,
    state: ScriptState,
    scenario: Seq<char>,
) -> bool {
    match (it.stage, event) {
        (Stage::Idle, IterationEvent::Due { local, linked }) => if local || linked == Some(true) {
            action is Skip
        } else if it.bridges_registered {
            action is ResetTimers
        } else {
            action is Register
        },
        (Stage::Registering, IterationEvent::BridgesRegistered) => action is ResetTimers,
        (Stage::Resetting, IterationEvent::TimersReset) => action is SyncGlobals,
        (Stage::Syncing, IterationEvent::GlobalsSynced) => action is CallEntry,
        (Stage::Calling, IterationEvent::Called(_)) => action is PumpTimers,
        (Stage::Pumping, IterationEvent::TimersPumped) => {
            action matches IterationAction::Finish(end) && {
                &&& samples::views(end.samples@) == all_stamped(
                    samples::views(state.samples@),
                    scenario,
                )
                &&& end.abort == state.abort
                &&& text::opt_text(end.error) == failure_text(text::opt_text(it.failure))
            }
        },
        _ => action is Unexpected,
    }
}

/// Where an iteration stands after an action.
pub open spec fn stage_after(it: Iteration, action: IterationAction) -> Stage {
    match action {
        IterationAction::Skip => Stage::Idle,
        IterationAction::Register => Stage::Registering,
        IterationAction::ResetTimers => Stage::Resetting,
        IterationAction::SyncGlobals => Stage::Syncing,
        IterationAction::CallEntry => Stage::Calling,
        IterationAction::PumpTimers => Stage::Pumping,
        IterationAction::Finish(_) => Stage::Idle,
        IterationAction::Unexpected => it.stage,
    }
}

impl Iteration {
    pub fn new() -> (r: Iteration)
        ensures
            r.stage == Stage::Idle,
            !r.bridges_registered,
            r.failure is None,
    {
        Iteration { stage: Stage::Idle, bridges_registered: false, failure: None }
    }

    /// Takes an event and says what to do next. The samples and the wish to end
    /// the test are taken out of the state when the iteration is handed over.
    pub fn next(&mut self, event: IterationEvent, state: &mut ScriptState, scenario: &str) -> (r:
        IterationAction)
        ensures
            follows(*old(self), event, r, *old(state), scenario@),
            final(self).stage == stage_after(*old(self), r),
            final(self).bridges_registered == (old(self).bridges_registered || (old(self).stage
                == Stage::Registering && event is BridgesRegistered)),
            text::opt_text(final(self).failure) == (if r is PumpTimers {
                match event {
                    IterationEvent::Called(Err(e)) => Some(e@),
                    _ => None,
                }
            } else if r is Finish {
                None
            } else {
                text::opt_text(old(self).failure)
            }),
            r is Finish ==> {
                &&& final(state).samples@.len() == 0
                &&& final(state).abort is None
                &&& final(state).groups == old(state).groups
                &&& final(state).exec_state == old(state).exec_state
            },
            !(r is Finish) ==> *final(state) == *old(state),
    {
        match event {
            IterationEvent::Due { local, linked } => {
                if self.stage != Stage::Idle {
                    return IterationAction::Unexpected;
                }
                if is_stopped(local, linked) {
                    return IterationAction::Skip;
                }
                if !self.bridges_registered {
                    self.stage = Stage::Registering;
                    return IterationAction::Register;
                }
                self.stage = Stage::Resetting;
                IterationAction::ResetTimers
            },
            IterationEvent::BridgesRegistered => {
                if self.stage != Stage::Registering {
                    return IterationAction::Unexpected;
                }
                self.bridges_registered = true;
                self.stage = Stage::Resetting;
                IterationAction::ResetTimers
            },
            IterationEvent::TimersReset => {
                if self.stage != Stage::Resetting {
                    return IterationAction::Unexpected;
                }
                self.stage = Stage::Syncing;
                IterationAction::SyncGlobals
            },
            IterationEvent::GlobalsSynced => {
                if self.stage != Stage::Syncing {
                    return IterationAction::Unexpected;
                }
                self.stage = Stage::Calling;
                IterationAction::CallEntry
            },
            IterationEvent::Called(result) => {
                if self.stage != Stage::Calling {
                    return IterationAction::Unexpected;
                }
                self.failure = match result {
                    Ok(_) => None,
                    Err(e) => Some(e),
                };
                self.stage = Stage::Pumping;
                IterationAction::PumpTimers
            },
            IterationEvent::TimersPumped => {
                if self.stage != Stage::Pumping {
                    return IterationAction::Unexpected;
                }
                let samples = drain(state, scenario);
                let mut abort: Option<String> = None;
                std::mem::swap(&mut abort, &mut state.abort);
                let error = match &self.failure {
                    Some(e) => Some(text::cat("k6 iteration failed: ", e.as_str())),
                    None => None,
                };
                self.failure = None;
                self.stage = Stage::Idle;
                IterationAction::Finish(IterationEnd { samples, abort, error })
            },
        }
    }
}

// ── laws ──

/// An iteration is handed over only right after the timers were pumped, and the
/// timers are pumped only right after the script was called, whether it failed or
/// not. So what a timer records belongs to its iteration.
pub proof fn law_timers_are_pumped_before_samples_are_drained(
    it: Iteration,
    event: IterationEvent,
    action: IterationAction,
    state: ScriptState,
    scenario: Seq<char>,
)
    requires
        follows(it, event, action, state, scenario),
    ensures
        action is Finish ==> it.stage == Stage::Pumping && event is TimersPumped,
        action is PumpTimers ==> it.stage == Stage::Calling && event is Called,
        it.stage == Stage::Calling && event is Called ==> action is PumpTimers,
        it.stage == Stage::Pumping && event is TimersPumped ==> action is Finish,
{
}

/// An iteration resets the timers before it calls the script.
pub proof fn law_timers_are_reset_before_the_script_is_called(
    it: Iteration,
    event: IterationEvent,
    action: IterationAction,
    state: ScriptState,
    scenario: Seq<char>,
)
    requires
        follows(it, event, action, state, scenario),
    ensures
        action is CallEntry ==> it.stage == Stage::Syncing,
        action is SyncGlobals ==> it.stage == Stage::Resetting && event is TimersReset,
{
}

/// Where a scenario has a name, every sample that is handed over has a scenario as
/// a tag.
pub proof fn law_every_sample_has_a_scenario(
    s: Seq<samples::SampleView>,
    scenario: Seq<char>,
    i: int,
)
    requires
        scenario.len() > 0,
        0 <= i < s.len(),
    ensures
        all_stamped(s, scenario)[i].tags.contains_key("scenario"@),
        s[i].tags.contains_key("scenario"@) ==> all_stamped(s, scenario)[i] == s[i],
{
}

/// Stamping adds the scenario to the tags of a sample that has none, and changes
/// nothing else.
pub proof fn law_stamping_adds_one_tag(
    s: Seq<samples::SampleView>,
    scenario: Seq<char>,
    i: int,
    key: Seq<char>,
)
    requires
        0 <= i < s.len(),
    ensures
        ({
            let t = all_stamped(s, scenario)[i];
            &&& all_stamped(s, scenario).len() == s.len()
            &&& t.metric == s[i].metric
            &&& t.value == s[i].value
            &&& t.timestamp == s[i].timestamp
            &&& t.sample_type == s[i].sample_type
            &&& scenario.len() > 0 && !s[i].tags.contains_key("scenario"@) ==> t.tags["scenario"@]
                == scenario
            &&& scenario.len() == 0 ==> t.tags == s[i].tags
            &&& key != "scenario"@ ==> t.tags.contains_key(key) == s[i].tags.contains_key(key) && (
            s[i].tags.contains_key(key) ==> t.tags[key] == s[i].tags[key])
        }),
{
}

/// What is handed over: the samples, stamped, the wish to end the test, and the
/// error of the call, said to be one of the iteration. A call that succeeded leaves
/// none.
pub proof fn law_iteration_hands_over(
    it: Iteration,
    event: IterationEvent,
    action: IterationAction,
    state: ScriptState,
    scenario: Seq<char>,
)
    requires
        follows(it, event, action, state, scenario),
        action is Finish,
    ensures
        ({
            let end = action->Finish_0;
            &&& samples::views(end.samples@) == all_stamped(samples::views(state.samples@), scenario)
            &&& end.samples@.len() == state.samples@.len()
            &&& end.abort == state.abort
            &&& end.error is Some <==> it.failure is Some
            &&& end.error is Some ==> end.error->0@ == "k6 iteration failed: "@ + it.failure->0@
        }),
{
    let end = action->Finish_0;
    assert(samples::views(end.samples@).len() == end.samples@.len());
}

/// An iteration is skipped exactly where one of the flags says so, and otherwise
/// registers the bridges once and resets the timers.
pub proof fn law_stopped_tests_run_nothing(
    it: Iteration,
    local: bool,
    linked: Option<bool>,
    action: IterationAction,
    state: ScriptState,
    scenario: Seq<char>,
)
    requires
        it.stage == Stage::Idle,
        follows(it, IterationEvent::Due { local, linked }, action, state, scenario),
    ensures
        local ==> action is Skip,
        linked == Some(true) ==> action is Skip,
        !local && linked != Some(true) && it.bridges_registered ==> action is ResetTimers,
        !local && linked != Some(true) && !it.bridges_registered ==> action is Register,
{
}

/// The steps of an iteration, in order: registering, resetting, syncing, calling,
/// pumping, and the hand-over, after which the next one may come.
pub proof fn law_steps_come_in_order(
    it: Iteration,
    event: IterationEvent,
    action: IterationAction,
    state: ScriptState,
    scenario: Seq<char>,
)
    requires
        follows(it, event, action, state, scenario),
    ensures
        it.stage == Stage::Registering && event is BridgesRegistered ==> action is ResetTimers,
        it.stage == Stage::Resetting && event is TimersReset ==> action is SyncGlobals,
        it.stage == Stage::Syncing && event is GlobalsSynced ==> action is CallEntry,
        action is Register ==> stage_after(it, action) == Stage::Registering,
        action is ResetTimers ==> stage_after(it, action) == Stage::Resetting,
        action is SyncGlobals ==> stage_after(it, action) == Stage::Syncing,
        action is CallEntry ==> stage_after(it, action) == Stage::Calling,
        action is PumpTimers ==> stage_after(it, action) == Stage::Pumping,
        action is Finish || action is Skip ==> stage_after(it, action) == Stage::Idle,
        action is Unexpected ==> stage_after(it, action) == it.stage,
{
}

/// A sleep is over exactly where nothing is left of it. Before that, a stopped test
/// interrupts it, and otherwise it goes on: for some time, for no more than is left,
/// and for no more than ten milliseconds until the flags are looked at again.
pub proof fn law_sleep_looks_at_the_flags(remaining: u128, stopped: bool)
    ensures
        sleep_step(remaining, stopped) is Done <==> remaining == 0,
        sleep_step(remaining, stopped) is Interrupt <==> remaining > 0 && stopped,
        sleep_step(remaining, stopped) matches SleepStep::Sleep(n) ==> 0 < n <= remaining && n
            <= 10_000_000 && (n < remaining ==> n == 10_000_000),
{
}

} // verus!
