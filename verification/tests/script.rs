use tropel_inputs::binary64::Binary64;
use tropel_inputs::globals::{globals_outside, globals_to_set, sync_globals, GlobalValue, VuFacts};
use tropel_inputs::iteration::{
    drain, is_stopped, Iteration, IterationAction, IterationEvent, SleepState, SleepStep,
};
use tropel_inputs::json::Json;
use tropel_inputs::samples::{Sample, SampleType, SampleValue};
use tropel_inputs::script_state::{ExecState, ScriptState};
use tropel_inputs::shared_arrays::SharedArrays;
use tropel_inputs::shim_cache::{ShimAction, ShimBytecodeCache, ShimEvent};
use tropel_inputs::string_map::StringMap;

fn float(x: f64) -> Binary64 {
    Binary64 { bits: x.to_bits() }
}

fn tag<'a>(sample: &'a Sample, key: &str) -> Option<&'a str> {
    sample.tags.get(key).map(|s| s.as_str())
}

#[test]
fn nested_groups_have_the_whole_path() {
    let mut s = ScriptState::new();
    s.group_start("outer");
    s.group_start("inner");
    assert_eq!(s.group().as_deref(), Some("::outer::inner"));
    s.pm_test("ok", true, None, 1);
    s.group_end("inner", float(2.5), 1);
    assert_eq!(s.group().as_deref(), Some("::outer"));
    s.group_end("outer", float(4.0), 1);
    assert_eq!(s.group(), None);
    s.group_end("stray", float(1.0), 1);
    assert_eq!(tag(&s.samples[0], "group"), Some("::outer::inner"));
    assert_eq!(tag(&s.samples[0], "check"), Some("ok"));
    assert_eq!(tag(&s.samples[1], "group"), Some("::outer::inner"));
    assert_eq!(s.samples[1].metric, "group_duration");
    assert_eq!(s.samples[1].value, SampleValue::Number(float(2.5)));
    assert_eq!(tag(&s.samples[2], "group"), Some("::outer"));
    assert_eq!(tag(&s.samples[3], "group"), Some("::stray"));
}

#[test]
fn a_check_has_the_tags_that_are_passed() {
    let mut s = ScriptState::new();
    s.pm_test("c", false, Some(r#"{"n": 1, "b": true, "check": "mine"}"#), 8);
    s.pm_test("d", true, Some("junk"), 8);
    let first = &s.samples[0];
    assert_eq!(first.metric, "checks");
    assert_eq!(first.sample_type, SampleType::Rate);
    assert_eq!(first.value, SampleValue::Flag(false));
    assert_eq!(first.timestamp, 8);
    assert_eq!(tag(first, "n"), Some("1"));
    assert_eq!(tag(first, "b"), Some("true"));
    assert_eq!(tag(first, "check"), Some("mine"));
    assert_eq!(tag(first, "group"), None);
    assert_eq!(s.samples[1].tags.len(), 1);
}

#[test]
fn a_metric_carries_its_group_unless_it_has_one() {
    let mut s = ScriptState::new();
    s.group_start("g");
    assert!(!s.custom_metric_add("m", float(1.0), "{}", "counter", false, 1));
    assert!(s.custom_metric_add("m", float(2.0), r#"{"group": "own"}"#, "trend", true, 1));
    s.custom_metric_add("m", float(3.0), "", "gauge", false, 1);
    s.custom_metric_add("m", float(4.0), "{}", "rate", false, 1);
    s.custom_metric_add("m", float(5.0), "{}", "other", false, 1);
    assert_eq!(tag(&s.samples[0], "group"), Some("::g"));
    assert_eq!(tag(&s.samples[1], "group"), Some("own"));
    let types: Vec<SampleType> = s.samples.iter().map(|x| x.sample_type).collect();
    assert_eq!(
        types,
        vec![
            SampleType::Counter,
            SampleType::Trend,
            SampleType::Point,
            SampleType::Rate,
            SampleType::Trend
        ]
    );
}

#[test]
fn values_that_are_not_finite_are_dropped() {
    let mut s = ScriptState::new();
    for x in [f64::NAN, f64::INFINITY, f64::NEG_INFINITY] {
        assert!(!s.custom_metric_add("m", float(x), "{}", "trend", true, 1));
    }
    assert!(s.samples.is_empty());
    assert!(s.custom_metric_add("m", float(-1.5), "{}", "trend", true, 1));
    assert_eq!(s.samples[0].value, SampleValue::Number(float(-1.5)));
}

#[test]
fn the_last_reason_to_abort_is_kept() {
    let mut s = ScriptState::new();
    s.test_abort("first");
    s.test_abort("second");
    assert_eq!(s.abort.as_deref(), Some("second"));
    let e = ExecState::default();
    assert_eq!(e.id_in_test(), 1);
}

#[test]
fn an_iteration_pumps_its_timers_before_it_is_handed_over() {
    let mut it = Iteration::new();
    let mut s = ScriptState::new();
    let due = || IterationEvent::Due { local: false, linked: None };
    assert!(matches!(it.next(due(), &mut s, "sc"), IterationAction::Register));
    assert!(matches!(it.next(due(), &mut s, "sc"), IterationAction::Unexpected));
    assert!(matches!(
        it.next(IterationEvent::BridgesRegistered, &mut s, "sc"),
        IterationAction::ResetTimers
    ));
    assert!(matches!(
        it.next(IterationEvent::TimersReset, &mut s, "sc"),
        IterationAction::SyncGlobals
    ));
    assert!(matches!(
        it.next(IterationEvent::GlobalsSynced, &mut s, "sc"),
        IterationAction::CallEntry
    ));
    s.pm_test("early", true, None, 1);
    assert!(matches!(
        it.next(IterationEvent::Called(Err("boom".to_string())), &mut s, "sc"),
        IterationAction::PumpTimers
    ));
    s.pm_test("from a timer", true, Some(r#"{"scenario": "own"}"#), 1);
    s.test_abort("enough");
    match it.next(IterationEvent::TimersPumped, &mut s, "sc") {
        IterationAction::Finish(end) => {
            assert_eq!(end.samples.len(), 2);
            assert_eq!(tag(&end.samples[0], "scenario"), Some("sc"));
            assert_eq!(tag(&end.samples[1], "scenario"), Some("own"));
            assert_eq!(end.abort.as_deref(), Some("enough"));
            assert_eq!(end.error.as_deref(), Some("k6 iteration failed: boom"));
        }
        other => panic!("expected the end, got {other:?}"),
    }
    assert!(s.samples.is_empty());
    assert!(s.abort.is_none());
    assert!(matches!(it.next(due(), &mut s, "sc"), IterationAction::ResetTimers));
}

#[test]
fn a_stopped_test_runs_no_iteration() {
    let mut it = Iteration::new();
    let mut s = ScriptState::new();
    for (local, linked, stopped) in [
        (false, None, false),
        (false, Some(false), false),
        (true, None, true),
        (false, Some(true), true),
    ] {
        assert_eq!(is_stopped(local, linked), stopped);
        if stopped {
            let action = it.next(IterationEvent::Due { local, linked }, &mut s, "");
            assert!(matches!(action, IterationAction::Skip));
        }
    }
    assert!(matches!(it.next(IterationEvent::TimersPumped, &mut s, ""), IterationAction::Unexpected));
}

#[test]
fn draining_without_a_scenario_adds_no_tag() {
    let mut s = ScriptState::new();
    s.pm_test("a", true, None, 1);
    let samples = drain(&mut s, "");
    assert_eq!(tag(&samples[0], "scenario"), None);
    assert!(drain(&mut s, "x").is_empty());
}

#[test]
fn a_sleep_lasts_its_time_in_slices() {
    let mut sleep = SleepState { remaining: 25_000_000 };
    assert_eq!(sleep.next(false), SleepStep::Sleep(10_000_000));
    assert_eq!(sleep.next(false), SleepStep::Sleep(10_000_000));
    assert_eq!(sleep.next(false), SleepStep::Sleep(5_000_000));
    assert_eq!(sleep.next(true), SleepStep::Done);
    let mut sleep = SleepState { remaining: 1 };
    assert_eq!(sleep.next(true), SleepStep::Interrupt);
    assert_eq!(SleepState { remaining: 0 }.next(false), SleepStep::Done);
}

fn facts() -> VuFacts {
    let mut env = StringMap::new();
    env.insert("K".to_string(), "V".to_string());
    VuFacts {
        vu_id: 4,
        iteration: 9,
        iterations_completed: 20,
        vus_active: 3,
        scenario_name: "sc".to_string(),
        executor_name: "constant-vus".to_string(),
        env,
        setup_data: Some("{\"token\": 1}".to_string()),
        data_row: Some("{\"row\": 2}".to_string()),
    }
}

#[test]
fn globals_are_set_once_and_before_each_iteration() {
    let mut s = ScriptState::new();
    let first = sync_globals(false, &facts(), &mut s);
    let names: Vec<&str> = first.iter().map(|g| g.0.as_str()).collect();
    assert_eq!(
        names,
        vec![
            "__tropel_vu_id",
            "__tropel_scenario",
            "__VU",
            "__ENV",
            "__tropel_env",
            "__tropel_setup",
            "__tropel_iteration_num",
            "__ITER",
            "__tropel_data_row",
        ]
    );
    assert!(matches!(first[0].1, GlobalValue::Number(4)));
    assert!(matches!(first[1].1, GlobalValue::Text(ref t) if t == "sc"));
    assert!(matches!(first[2].1, GlobalValue::Number(5)));
    assert!(matches!(first[3].1, GlobalValue::Texts(ref m) if m.get("K").is_some()));
    assert!(matches!(first[5].1, GlobalValue::Document(ref d) if d.text == "{\"token\":1}"));
    assert!(matches!(first[7].1, GlobalValue::Number(9)));
    assert!(matches!(first[8].1, GlobalValue::JsonText(ref t) if t == "{\"row\": 2}"));
    assert_eq!(s.exec_state.id_in_test(), 5);
    assert_eq!(s.exec_state.executor_name, "constant-vus");
    let mut later = facts();
    later.vu_id = 6;
    later.iteration = 10;
    later.data_row = None;
    let second = sync_globals(true, &later, &mut s);
    assert_eq!(second.len(), 2);
    assert_eq!(s.exec_state.vu_id, 4, "the number of the user is taken once");
    assert_eq!(s.exec_state.iteration, 10);
    assert_eq!(s.exec_state.iterations_completed, 20);
    assert_eq!(s.exec_state.vus_active, 3);
    later.vu_id = u32::MAX;
    later.iteration = 11;
    let third = sync_globals(true, &later, &mut s);
    assert!(matches!(third[1].1, GlobalValue::Number(11)));
    assert_eq!(s.exec_state.vu_id, 4);
}

#[test]
fn a_setup_that_returned_nothing_is_undefined() {
    let mut f = facts();
    f.setup_data = None;
    assert!(matches!(globals_to_set(false, &f, None)[5].1, GlobalValue::Undefined));
    f.setup_data = Some("not json".to_string());
    let mut s = ScriptState::new();
    assert!(matches!(sync_globals(false, &f, &mut s)[5].1, GlobalValue::Undefined));
    let doc = Json::parse("3");
    assert!(matches!(globals_to_set(false, &f, doc)[5].1, GlobalValue::Document(_)));
    let outside = globals_outside(&f.env);
    assert_eq!(outside.len(), 4);
    assert!(matches!(outside[0].1, GlobalValue::Number(0)));
}

#[test]
fn an_array_is_read_as_it_was_stored() {
    let mut a = SharedArrays::new();
    assert_eq!(a.len("/dir", "users"), -1);
    a.set("/dir", "users", "[{\"a\": 1}, 2]");
    assert_eq!(a.len("/dir", "users"), 2);
    assert_eq!(a.get("/dir", "users", 0).unwrap().text, "{\"a\":1}");
    assert_eq!(a.get("/dir", "users", 1).unwrap().text, "2");
    assert!(a.get("/dir", "users", 2).is_none());
    assert!(a.get("/dir", "users", -1).is_none());
    assert_eq!(a.len("/other", "users"), -1);
    assert_eq!(a.len("/dir", "user"), -1);
    a.set("/dir", "users", "{}");
    a.set("/dir", "users", "junk");
    assert_eq!(a.len("/dir", "users"), 2, "what is no list changes nothing");
    a.set("/dir", "empty", "[]");
    assert_eq!(a.len("/dir", "empty"), 0);
    a.store("/dir", "users", Json::parse("[7]"));
    assert_eq!(a.len("/dir", "users"), 1);
}

#[test]
fn libraries_are_compiled_once() {
    let mut c = ShimBytecodeCache::new();
    assert_eq!(c.next(ShimEvent::Begin), ShimAction::Compile);
    assert_eq!(c.next(ShimEvent::Compiled(Some(vec![1]))), ShimAction::Run);
    assert_eq!(c.next(ShimEvent::Ran(true)), ShimAction::Done);
    assert_eq!(c.next(ShimEvent::Begin), ShimAction::Run);
    assert_eq!(c.next(ShimEvent::Ran(false)), ShimAction::EvalSource);
    assert_eq!(c.next(ShimEvent::Evaluated), ShimAction::Done);
    assert_eq!(c.next(ShimEvent::Begin), ShimAction::EvalSource);
    assert_eq!(c.next(ShimEvent::Compiled(None)), ShimAction::EvalSource);
    assert_eq!(c.bytecode, Some(Some(vec![1])), "the first outcome stays");
}

#[test]
fn a_failed_compilation_is_not_repeated() {
    let mut c = ShimBytecodeCache::new();
    assert_eq!(c.next(ShimEvent::Begin), ShimAction::Compile);
    assert_eq!(c.next(ShimEvent::Compiled(None)), ShimAction::EvalSource);
    assert!(c.compile_failed);
    assert_eq!(c.next(ShimEvent::Begin), ShimAction::EvalSource);
}
