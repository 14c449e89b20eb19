use tropel_inputs::binary64::Binary64;
use tropel_inputs::json::Json;
use tropel_inputs::options::{
    declared_options, DriverDeclaredOptions, ExecutionConfig, K6Dns, K6Options, K6Scenario, K6Stage,
    K6ThresholdSpec, OptionsRead,
};
use tropel_inputs::string_map::StringMap;
use tropel_inputs::thresholds::wide_numbers;

fn float(x: f64) -> Binary64 {
    Binary64 { bits: x.to_bits() }
}

fn text(v: &serde_json::Value, key: &str) -> Option<String> {
    v.get(key).map(|s| s.as_str().expect("a string").to_string())
}

fn number(v: &serde_json::Value, key: &str) -> Option<Binary64> {
    v.get(key).map(|n| float(n.as_f64().expect("a number")))
}

fn count(v: &serde_json::Value, key: &str) -> Option<u32> {
    v.get(key).map(|n| n.as_u64().expect("a count") as u32)
}

fn flag(v: &serde_json::Value, key: &str) -> Option<bool> {
    v.get(key).map(|b| b.as_bool().expect("a flag"))
}

fn texts(v: &serde_json::Value, key: &str) -> Option<Vec<String>> {
    v.get(key).map(|a| {
        a.as_array()
            .expect("a list")
            .iter()
            .map(|s| s.as_str().expect("a string").to_string())
            .collect()
    })
}

fn text_map(v: &serde_json::Value, key: &str) -> Option<StringMap<String>> {
    v.get(key).map(|o| {
        let mut m = StringMap::new();
        for (k, s) in o.as_object().expect("an object") {
            m.insert(k.clone(), s.as_str().expect("a string").to_string());
        }
        m
    })
}

fn stages(v: &serde_json::Value) -> Option<Vec<K6Stage>> {
    v.get("stages").map(|a| {
        a.as_array()
            .expect("a list")
            .iter()
            .map(|s| K6Stage {
                duration: text(s, "duration").expect("a duration"),
                target: number(s, "target").expect("a target"),
            })
            .collect()
    })
}

fn document(v: &serde_json::Value) -> Json {
    Json::parse(&v.to_string()).expect("a document")
}

fn thresholds(v: &serde_json::Value) -> Option<StringMap<K6ThresholdSpec>> {
    v.get("thresholds").map(|o| {
        let mut m = StringMap::new();
        for (k, t) in o.as_object().expect("an object") {
            let spec = match t {
                serde_json::Value::String(s) => K6ThresholdSpec::Single(s.clone()),
                serde_json::Value::Array(a) => {
                    K6ThresholdSpec::Array(a.iter().map(document).collect())
                }
                other => K6ThresholdSpec::Other(document(other)),
            };
            m.insert(k.clone(), spec);
        }
        m
    })
}

fn scenario(v: &serde_json::Value) -> K6Scenario {
    K6Scenario {
        executor: text(v, "executor").unwrap_or_default(),
        vus: count(v, "vus"),
        duration: text(v, "duration"),
        iterations: v.get("iterations").map(|n| n.as_u64().expect("a count")),
        start_vus: count(v, "startVUs"),
        stages: stages(v),
        rate: number(v, "rate"),
        time_unit: text(v, "timeUnit"),
        pre_allocated_vus: count(v, "preAllocatedVUs"),
        max_vus: count(v, "maxVUs"),
        start_rate: number(v, "startRate"),
        max_duration: text(v, "maxDuration"),
        graceful_stop: text(v, "gracefulStop"),
        graceful_ramp_down: text(v, "gracefulRampDown"),
        start_time: text(v, "startTime"),
        env: text_map(v, "env").unwrap_or_else(StringMap::new),
        tags: text_map(v, "tags").unwrap_or_else(StringMap::new),
        exec_name: text(v, "exec"),
    }
}

fn parse(json: &str) -> K6Options {
    let v: serde_json::Value = serde_json::from_str(json).expect("options JSON must parse");
    K6Options {
        vus: count(&v, "vus"),
        duration: text(&v, "duration"),
        iterations: v.get("iterations").map(|n| n.as_u64().expect("a count")),
        stages: stages(&v),
        scenarios: v.get("scenarios").map(|o| {
            let mut m = StringMap::new();
            for (k, s) in o.as_object().expect("an object") {
                m.insert(k.clone(), scenario(s));
            }
            m
        }),
        thresholds: thresholds(&v),
        graceful_stop: text(&v, "gracefulStop"),
        graceful_ramp_down: text(&v, "gracefulRampDown"),
        max_duration: text(&v, "maxDuration"),
        discard_response_bodies: flag(&v, "discardResponseBodies"),
        summary_trend_stats: texts(&v, "summaryTrendStats"),
        dns: v.get("dns").map(|d| K6Dns {
            ttl: text(d, "ttl"),
            select: text(d, "select"),
            policy: text(d, "policy"),
        }),
        no_connection_reuse: flag(&v, "noConnectionReuse"),
        no_vu_connection_reuse: flag(&v, "noVUConnectionReuse"),
        rps: number(&v, "rps"),
        hosts: text_map(&v, "hosts"),
        blacklist_ips: texts(&v, "blacklistIPs"),
        insecure_skip_tls_verify: flag(&v, "insecureSkipTLSVerify"),
    }
}

fn declared(opts: &K6Options) -> Option<DriverDeclaredOptions> {
    opts.to_declared(&StringMap::new())
}

#[test]
fn test_constant_vus() {
    let opts = parse(r#"{"vus": 10, "duration": "30s"}"#);
    let decl = declared(&opts).expect("declared options");
    match decl.execution {
        Some(ExecutionConfig::ConstantVus { vus, duration, .. }) => {
            assert_eq!(vus, 10);
            assert_eq!(duration, "30s");
        }
        other => panic!("expected ConstantVus, got {other:?}"),
    }
}

#[test]
fn test_ramping_vus_from_stages() {
    let opts = parse(r#"{"vus": 2, "stages": [{"duration": "10s", "target": 20}]}"#);
    let decl = declared(&opts).unwrap();
    match decl.execution {
        Some(ExecutionConfig::RampingVus { start_vus, stages, .. }) => {
            assert_eq!(start_vus, 2);
            assert_eq!(stages.len(), 1);
            assert_eq!(stages[0].target, 20);
        }
        other => panic!("expected RampingVus, got {other:?}"),
    }
}

#[test]
fn test_scenario_start_vus_k6_spelling() {
    let opts = parse(
        r#"{"scenarios": {"s": {"executor": "ramping-vus", "startVUs": 0, "stages": [{"duration": "10s", "target": 10}]}}}"#,
    );
    let decl = declared(&opts).expect("declared options");
    let scenarios = decl.scenarios.expect("scenarios present");
    let sc = scenarios.get("s").expect("scenario s");
    match &sc.execution {
        ExecutionConfig::RampingVus { start_vus, stages, .. } => {
            assert_eq!(*start_vus, 0, "startVUs must be honored (not fall back to vus/1)");
            assert_eq!(stages.len(), 1);
        }
        other => panic!("expected RampingVus, got {other:?}"),
    }
}

#[test]
fn test_shared_iterations() {
    let opts = parse(r#"{"vus": 5, "iterations": 100}"#);
    let decl = declared(&opts).unwrap();
    match decl.execution {
        Some(ExecutionConfig::SharedIterations { iterations, vus, .. }) => {
            assert_eq!(iterations, 100);
            assert_eq!(vus, 5);
        }
        other => panic!("expected SharedIterations, got {other:?}"),
    }
}

#[test]
fn test_named_scenarios_take_precedence() {
    let opts = parse(
        r#"{
                "vus": 1,
                "duration": "10s",
                "scenarios": {
                    "load": { "executor": "constant-vus", "vus": 25, "duration": "1m", "startTime": "5s", "env": {"K": "V"}, "tags": {"scenario": "load"} }
                }
            }"#,
    );
    let decl = declared(&opts).unwrap();
    assert!(decl.execution.is_none());
    let scenarios = decl.scenarios.expect("scenarios");
    let load = scenarios.get("load").expect("load scenario");
    assert_eq!(load.start_time, "5s");
    assert_eq!(load.env.get("K").map(|s| s.as_str()), Some("V"));
    match &load.execution {
        ExecutionConfig::ConstantVus { vus, duration, .. } => {
            assert_eq!(*vus, 25);
            assert_eq!(duration, "1m");
        }
        other => panic!("expected ConstantVus, got {other:?}"),
    }
}

#[test]
fn test_arrival_rate_scenario() {
    let opts = parse(
        r#"{
                "scenarios": {
                    "spam": { "executor": "constant-arrival-rate", "rate": 50, "timeUnit": "1s", "duration": "30s", "preAllocatedVUs": 5, "maxVUs": 20 }
                }
            }"#,
    );
    let decl = declared(&opts).unwrap();
    let scenarios = decl.scenarios.unwrap();
    match &scenarios.get("spam").unwrap().execution {
        ExecutionConfig::ConstantArrivalRate { rate, pre_alloc_vus, max_vus, .. } => {
            assert_eq!(*rate, float(50.0));
            assert_eq!(*pre_alloc_vus, 5);
            assert_eq!(*max_vus, 20);
        }
        other => panic!("expected ConstantArrivalRate, got {other:?}"),
    }
}

#[test]
fn test_arrival_rate_non_identity_time_unit_is_carried() {
    let opts = parse(
        r#"{
                "scenarios": {
                    "spam": { "executor": "constant-arrival-rate", "rate": 50, "timeUnit": "1m", "duration": "30s", "preAllocatedVUs": 5, "maxVUs": 20 }
                }
            }"#,
    );
    let decl = declared(&opts).unwrap();
    let scenarios = decl.scenarios.unwrap();
    match &scenarios.get("spam").unwrap().execution {
        ExecutionConfig::ConstantArrivalRate { rate, time_unit, .. } => {
            assert_eq!(*rate, float(50.0));
            assert_eq!(
                time_unit, "1m",
                "non-identity timeUnit must be carried, not flattened to 1s"
            );
        }
        other => panic!("expected ConstantArrivalRate, got {other:?}"),
    }
}

#[test]
fn test_arrival_rate_max_vus_defaults_and_clamps() {
    let opts = parse(
        r#"{
                "scenarios": {
                    "spam": { "executor": "constant-arrival-rate", "rate": 2000, "timeUnit": "1s", "duration": "30s", "preAllocatedVUs": 400 }
                }
            }"#,
    );
    let decl = declared(&opts).unwrap();
    let scenarios = decl.scenarios.unwrap();
    match &scenarios.get("spam").unwrap().execution {
        ExecutionConfig::ConstantArrivalRate { pre_alloc_vus, max_vus, .. } => {
            assert_eq!(*pre_alloc_vus, 400);
            assert_eq!(
                *max_vus, 400,
                "maxVUs must default to preAllocatedVUs (k6 parity), not 10"
            );
        }
        other => panic!("expected ConstantArrivalRate, got {other:?}"),
    }
    let opts = parse(
        r#"{
                "scenarios": {
                    "spam": { "executor": "constant-arrival-rate", "rate": 50, "duration": "30s", "preAllocatedVUs": 20, "maxVUs": 5 }
                }
            }"#,
    );
    let decl = declared(&opts).unwrap();
    let scenarios = decl.scenarios.unwrap();
    match &scenarios.get("spam").unwrap().execution {
        ExecutionConfig::ConstantArrivalRate { max_vus, .. } => {
            assert_eq!(*max_vus, 20, "maxVUs below preAllocatedVUs must clamp up");
        }
        other => panic!("expected ConstantArrivalRate, got {other:?}"),
    }
}

#[test]
fn test_arrival_rate_requires_pre_allocated_vus() {
    let opts = parse(
        r#"{
                "scenarios": {
                    "spam": { "executor": "constant-arrival-rate", "rate": 2000, "duration": "30s" }
                }
            }"#,
    );
    let declared = declared(&opts);
    assert!(
        declared.as_ref().and_then(|d| d.scenarios.as_ref()).is_none(),
        "arrival-rate scenario without preAllocatedVUs must be skipped (k6 rejects it)"
    );
}

#[test]
fn test_duration_only_options_produce_constant_vus() {
    let opts = parse(r#"{ "duration": "30s" }"#);
    let decl = declared(&opts).unwrap();
    match decl.execution {
        Some(ExecutionConfig::ConstantVus { vus, duration, .. }) => {
            assert_eq!(vus, 1, "duration-only options must default vus to 1");
            assert_eq!(duration, "30s");
        }
        other => panic!("expected ConstantVus, got {other:?}"),
    }
}

#[test]
fn test_threshold_string_form() {
    let opts = parse(r#"{"thresholds": {"http_req_duration": ["p(95)<500", "avg<200"]}}"#);
    let thresholds = opts.convert_thresholds(&StringMap::new());
    assert_eq!(thresholds.len(), 2);
    assert_eq!(
        thresholds.get("http_req_duration").unwrap().expression,
        "http_req_duration.p(95) < 500"
    );
    assert_eq!(
        thresholds.get("http_req_duration#1").unwrap().expression,
        "http_req_duration.avg < 200"
    );
}

#[test]
fn test_threshold_non_duration_not_scaled() {
    let opts = parse(
        r#"{"thresholds": {"http_req_failed": ["rate<0.01"], "http_reqs": ["count>100"]}}"#,
    );
    let thresholds = opts.convert_thresholds(&StringMap::new());
    assert_eq!(
        thresholds.get("http_req_failed").unwrap().expression,
        "http_req_failed.rate < 0.01"
    );
    assert_eq!(thresholds.get("http_reqs").unwrap().expression, "http_reqs.count > 100");
}

#[test]
fn test_threshold_config_object_form() {
    let opts = parse(
        r#"{"thresholds": {"http_req_duration": [{"threshold": "p(99)<1000", "abortOnFail": true, "delayAbortEval": "30s"}]}}"#,
    );
    let thresholds = opts.convert_thresholds(&StringMap::new());
    let cfg = thresholds.get("http_req_duration").unwrap();
    assert_eq!(cfg.expression, "http_req_duration.p(99) < 1000");
    assert!(cfg.abort_on_fail);
    assert_eq!(cfg.delay_abort_eval.as_deref(), Some("30s"));
}

#[test]
fn test_empty_options_is_none() {
    let opts = parse(r#"{}"#);
    assert!(declared(&opts).is_none());
}

#[test]
fn test_safety_options_survive_without_load_profile() {
    let opts = parse(
        r#"{
                "thresholds": {"http_req_duration": ["p(95)<500"]},
                "dns": {"ttl": "1m", "select": "roundRobin", "policy": "any"},
                "hosts": {"test.k6.io": "1.2.3.4"},
                "blacklistIPs": ["10.0.0.0/8"],
                "rps": 100,
                "noConnectionReuse": true,
                "discardResponseBodies": true,
                "summaryTrendStats": ["avg", "p(99)"]
            }"#,
    );
    let decl = declared(&opts).expect("safety options must not be discarded");
    assert!(decl.execution.is_none());
    assert!(decl.scenarios.is_none());
    assert_eq!(decl.thresholds.len(), 1);
    assert_eq!(decl.dns_ttl.as_deref(), Some("1m"));
    assert_eq!(decl.dns_select.as_deref(), Some("roundRobin"));
    assert_eq!(decl.dns_policy.as_deref(), Some("any"));
    assert_eq!(
        decl.hosts.as_ref().and_then(|h| h.get("test.k6.io")),
        Some(&"1.2.3.4".to_string())
    );
    assert_eq!(
        decl.blacklist_ips.as_deref(),
        Some(&["10.0.0.0/8".to_string()][..])
    );
    assert_eq!(decl.rps, Some(float(100.0)));
    assert_eq!(decl.no_connection_reuse, Some(true));
    assert_eq!(decl.discard_response_bodies, Some(true));
    assert_eq!(
        decl.summary_trend_stats.as_deref(),
        Some(&["avg".to_string(), "p(99)".to_string()][..])
    );
}

#[test]
fn test_insecure_skip_tls_verify_survives() {
    let opts = parse(r#"{"insecureSkipTLSVerify": true}"#);
    let decl = declared(&opts).expect("insecureSkipTLSVerify alone must survive");
    assert!(decl.execution.is_none());
    assert_eq!(decl.insecure_skip_tls_verify, Some(true));

    let opts = parse(r#"{"insecureSkipTLSVerify": false}"#);
    let decl = declared(&opts).expect("insecureSkipTLSVerify=false must survive");
    assert_eq!(decl.insecure_skip_tls_verify, Some(false));

    let opts = parse(r#"{"vus": 2, "duration": "10s", "insecureSkipTLSVerify": true}"#);
    let decl = declared(&opts).expect("declared options");
    assert_eq!(decl.insecure_skip_tls_verify, Some(true));
    assert!(decl.execution.is_some());
}

#[test]
fn test_dns_and_http_options_map() {
    let opts = parse(
        r#"{
                "vus": 1,
                "duration": "10s",
                "dns": { "ttl": "1m", "select": "roundRobin", "policy": "preferIPv4" },
                "noConnectionReuse": true,
                "noVUConnectionReuse": true,
                "rps": 50,
                "hosts": { "api.example.com": "10.0.0.1" },
                "blacklistIPs": ["10.0.0.0/8", "192.168.1.5"]
            }"#,
    );
    assert_eq!(opts.dns.as_ref().and_then(|d| d.ttl.as_deref()), Some("1m"));
    assert_eq!(opts.dns.as_ref().and_then(|d| d.select.as_deref()), Some("roundRobin"));
    assert_eq!(opts.dns.as_ref().and_then(|d| d.policy.as_deref()), Some("preferIPv4"));
    assert_eq!(opts.no_connection_reuse, Some(true));
    assert_eq!(opts.no_vu_connection_reuse, Some(true));
    assert_eq!(opts.rps, Some(float(50.0)));
    assert_eq!(
        opts.hosts.as_ref().and_then(|h| h.get("api.example.com")).map(|s| s.as_str()),
        Some("10.0.0.1")
    );
    assert_eq!(opts.blacklist_ips.as_ref().map(|b| b.len()), Some(2));

    let decl = declared(&opts).expect("declared options");
    assert_eq!(decl.dns_ttl.as_deref(), Some("1m"));
    assert_eq!(decl.dns_select.as_deref(), Some("roundRobin"));
    assert_eq!(decl.dns_policy.as_deref(), Some("preferIPv4"));
    assert_eq!(decl.no_connection_reuse, Some(true));
    assert_eq!(decl.no_vu_connection_reuse, Some(true));
    assert_eq!(decl.rps, Some(float(50.0)));
    assert_eq!(decl.hosts.as_ref().map(|h| h.len()), Some(1));
    assert_eq!(decl.blacklist_ips.as_ref().map(|b| b.len()), Some(2));
}

#[test]
fn stage_targets_become_whole_users() {
    let opts = parse(
        r#"{"stages": [{"duration": "1s", "target": 2.9}, {"duration": "1s", "target": -3}, {"duration": "1s", "target": 1e12}]}"#,
    );
    match declared(&opts).unwrap().execution {
        Some(ExecutionConfig::RampingVus { start_vus, stages, .. }) => {
            assert_eq!(start_vus, 1);
            let targets: Vec<u32> = stages.iter().map(|s| s.target).collect();
            assert_eq!(targets, vec![2, 0, u32::MAX]);
        }
        other => panic!("expected RampingVus, got {other:?}"),
    }
}

#[test]
fn rate_stages_keep_their_fractions() {
    let opts = parse(
        r#"{"scenarios": {"r": {"executor": "ramping-arrival-rate", "preAllocatedVUs": 3, "stages": [{"duration": "1s", "target": 2.5}]}}}"#,
    );
    let decl = declared(&opts).unwrap();
    match &decl.scenarios.unwrap().get("r").unwrap().execution {
        ExecutionConfig::RampingArrivalRate { start_rate, stages, time_unit, max_vus, .. } => {
            assert_eq!(*start_rate, float(0.0));
            assert_eq!(stages[0].target, float(2.5));
            assert_eq!(time_unit, "1s");
            assert_eq!(*max_vus, 3);
        }
        other => panic!("expected RampingArrivalRate, got {other:?}"),
    }
}

#[test]
fn every_executor_has_its_profile() {
    let opts = parse(
        r#"{"scenarios": {
            "a": {"executor": "shared-iterations", "iterations": 7, "maxDuration": "9m"},
            "b": {"executor": "per-vu-iterations", "vus": 2, "iterations": 3},
            "c": {"executor": "externally-controlled"},
            "d": {"executor": "constant-vus", "duration": "1s"},
            "e": {"executor": "unheard-of", "vus": 1, "duration": "1s"}
        }}"#,
    );
    let scenarios = declared(&opts).unwrap().scenarios.unwrap();
    assert_eq!(scenarios.len(), 3, "a missing field and an unknown executor are left out");
    match &scenarios.get("a").unwrap().execution {
        ExecutionConfig::SharedIterations { iterations, max_duration, vus, .. } => {
            assert_eq!((*iterations, max_duration.as_deref(), *vus), (7, Some("9m"), 1));
        }
        other => panic!("expected SharedIterations, got {other:?}"),
    }
    match &scenarios.get("b").unwrap().execution {
        ExecutionConfig::PerVUIterations { iterations, vus, .. } => {
            assert_eq!((*iterations, *vus), (3, 2));
        }
        other => panic!("expected PerVUIterations, got {other:?}"),
    }
    match &scenarios.get("c").unwrap().execution {
        ExecutionConfig::ExternallyControlled { vus, max_vus, duration, .. } => {
            assert_eq!((*vus, *max_vus, duration.as_deref()), (1, 10, None));
        }
        other => panic!("expected ExternallyControlled, got {other:?}"),
    }
    assert_eq!(scenarios.get("a").unwrap().start_time, "0s");
}

#[test]
fn a_scenario_names_its_function() {
    let opts = parse(
        r#"{"scenarios": {"s": {"executor": "constant-vus", "vus": 1, "duration": "1s", "exec": "checkout"}}}"#,
    );
    let scenarios = declared(&opts).unwrap().scenarios.unwrap();
    assert_eq!(scenarios.get("s").unwrap().exec_name.as_deref(), Some("checkout"));
}

#[test]
fn skipped_scenarios_fall_back_to_the_top_level() {
    let opts = parse(
        r#"{"duration": "5s", "scenarios": {"s": {"executor": "constant-arrival-rate", "rate": 1, "duration": "1s"}}}"#,
    );
    let decl = declared(&opts).unwrap();
    assert!(decl.scenarios.is_none());
    assert!(matches!(decl.execution, Some(ExecutionConfig::ConstantVus { vus: 1, .. })));
}

#[test]
fn stages_come_before_iterations_and_iterations_before_duration() {
    let opts = parse(
        r#"{"iterations": 5, "duration": "1s", "stages": [{"duration": "1s", "target": 1}]}"#,
    );
    assert!(matches!(
        declared(&opts).unwrap().execution,
        Some(ExecutionConfig::RampingVus { .. })
    ));
    let opts = parse(r#"{"iterations": 5, "duration": "1s", "stages": []}"#);
    assert!(matches!(
        declared(&opts).unwrap().execution,
        Some(ExecutionConfig::SharedIterations { .. })
    ));
}

#[test]
fn empty_collections_declare_nothing() {
    let opts = parse(
        r#"{"summaryTrendStats": [], "hosts": {}, "blacklistIPs": [], "thresholds": {"m": {"threshold": "avg<1"}}, "scenarios": {}}"#,
    );
    assert!(declared(&opts).is_none());
    let opts = parse(r#"{"dns": {}}"#);
    assert!(declared(&opts).is_some());
}

#[test]
fn threshold_items_of_other_shapes_are_left_out() {
    let opts = parse(
        r#"{"thresholds": {"m": [1, {"abortOnFail": true}, "med<3", {"threshold": "max<4", "abortOnFail": 1, "delayAbortEval": 5}], "n": "min>0"}}"#,
    );
    let thresholds = opts.convert_thresholds(&StringMap::new());
    assert_eq!(thresholds.len(), 3);
    assert_eq!(thresholds.get("m").unwrap().expression, "m.p50 < 3");
    let second = thresholds.get("m#1").unwrap();
    assert_eq!(second.expression, "m.max < 4");
    assert!(!second.abort_on_fail);
    assert!(second.delay_abort_eval.is_none());
    assert_eq!(thresholds.get("n").unwrap().expression, "n.min > 0");
}

#[test]
fn wide_numbers_are_written_as_they_are_rounded() {
    let opts = parse(r#"{"thresholds": {"m": ["avg<0.1234567890123456789"], "n": "max<7"}}"#);
    assert_eq!(
        opts.expressions(),
        vec!["avg<0.1234567890123456789".to_string(), "max<7".to_string()]
    );
    let mut rounded = StringMap::new();
    for expr in opts.expressions() {
        for number in wide_numbers(&expr) {
            let value: f64 = number.parse().unwrap();
            rounded.insert(number, value.to_string());
        }
    }
    assert_eq!(rounded.len(), 1);
    let thresholds = opts.convert_thresholds(&rounded);
    assert_eq!(thresholds.get("m").unwrap().expression, "m.avg < 0.12345678901234568");
    assert_eq!(thresholds.get("n").unwrap().expression, "n.max < 7");
}

#[test]
fn named_thresholds_of_one_metric_do_not_collide() {
    let opts = parse(
        r#"{"thresholds": {"m": ["avg<1", "avg<2", "avg<3", "avg<4", "avg<5", "avg<6", "avg<7", "avg<8", "avg<9", "avg<10", "avg<11", "avg<12"]}}"#,
    );
    let thresholds = opts.convert_thresholds(&StringMap::new());
    assert_eq!(thresholds.len(), 12);
    assert_eq!(thresholds.get("m#11").unwrap().expression, "m.avg < 12");
    assert_eq!(thresholds.get("m#1").unwrap().expression, "m.avg < 2");
}

#[test]
fn options_that_cannot_be_read_are_an_error() {
    let none = StringMap::new();
    assert!(declared_options(&OptionsRead::Absent, &none).unwrap().is_none());
    let err = declared_options(&OptionsRead::Malformed("bad".to_string()), &none).unwrap_err();
    assert!(err.starts_with("k6 script declares `options` but they failed to parse: bad ("));
    let read = OptionsRead::Read(parse(r#"{"duration": "1s"}"#));
    assert!(declared_options(&read, &none).unwrap().is_some());
    assert!(declared_options(&OptionsRead::Read(parse("{}")), &none).unwrap().is_none());
}
