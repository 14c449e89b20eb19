use tropel_inputs::string_map::StringMap;
use tropel_inputs::thresholds;

fn translate_k6_expression(metric: &str, expr: &str) -> String {
    thresholds::translate_k6_expression(metric, expr, &StringMap::new())
}

#[test]
fn test_duration_threshold_fraction_unscaled() {
    let expr = translate_k6_expression("http_req_duration", "avg<1.5");
    assert_eq!(expr, "http_req_duration.avg < 1.5");
}

#[test]
fn test_duration_threshold_tag_scoped_unscaled() {
    let expr = translate_k6_expression("http_req_duration{scenario:api_load}", "p(95)<300");
    assert_eq!(expr, "http_req_duration{scenario:api_load}.p(95) < 300");
}

#[test]
fn test_duration_count_not_scaled() {
    let expr = translate_k6_expression("http_req_duration", "count>100");
    assert_eq!(expr, "http_req_duration.count > 100");
    let expr = translate_k6_expression("http_reqs", "count>100");
    assert_eq!(expr, "http_reqs.count > 100");
}

#[test]
fn test_threshold_fully_qualified_passthrough() {
    let expr = translate_k6_expression("http_req_duration", "http_req_duration.p95 < 500");
    assert_eq!(expr, "http_req_duration.p95 < 500");
}

#[test]
fn test_threshold_p_99_9_preserved_exact() {
    let expr = translate_k6_expression("http_req_duration", "p(99.9)<1000");
    assert_eq!(expr, "http_req_duration.p(99.9) < 1000");
    assert_eq!(
        translate_k6_expression("http_req_duration", "p(75)<800"),
        "http_req_duration.p(75) < 800"
    );
    assert_eq!(
        translate_k6_expression("http_req_duration", "p(10)<300"),
        "http_req_duration.p(10) < 300"
    );
}

#[test]
fn test_threshold_gauge_value_stat_translated() {
    let expr = translate_k6_expression("vus", "value>10");
    assert_eq!(expr, "vus.value > 10");
}

#[test]
fn test_threshold_compound_and_or_translated() {
    assert_eq!(
        translate_k6_expression("http_req_duration", "p(95)<500 && p(99)<1000"),
        "http_req_duration.p(95) < 500 && http_req_duration.p(99) < 1000"
    );
    assert_eq!(
        translate_k6_expression("http_req_duration", "avg<200 || p(95)<500"),
        "http_req_duration.avg < 200 || http_req_duration.p(95) < 500"
    );
    assert_eq!(
        translate_k6_expression("http_req_duration", "p(95)<500 && avg<200 || count>1000"),
        "http_req_duration.p(95) < 500 && http_req_duration.avg < 200 \
             || http_req_duration.count > 1000"
    );
    assert_eq!(
        translate_k6_expression(
            "http_req_duration",
            "http_req_duration.p95 < 500 && http_reqs.count > 100"
        ),
        "http_req_duration.p95 < 500 && http_reqs.count > 100"
    );
}

#[test]
fn test_threshold_compound_value_mixed() {
    assert_eq!(
        translate_k6_expression("vus", "value>10 && value<100"),
        "vus.value > 10 && vus.value < 100"
    );
}

#[test]
fn test_threshold_tag_filter_passes_through() {
    assert_eq!(
        translate_k6_expression("http_req_duration", "{status:200}<500"),
        "{status:200}<500"
    );
    assert_eq!(
        translate_k6_expression("http_req_duration", "p(95)<500 || {status:500}<100"),
        "http_req_duration.p(95) < 500 || {status:500}<100"
    );
}

#[test]
fn test_sub_timing_thresholds_unscaled() {
    let expr = translate_k6_expression("http_req_waiting", "p(95)<400");
    assert_eq!(expr, "http_req_waiting.p(95) < 400");
    let expr = translate_k6_expression("http_req_tls_handshaking", "avg<100");
    assert_eq!(expr, "http_req_tls_handshaking.avg < 100");
    let expr = translate_k6_expression("http_req_receiving", "med<50");
    assert_eq!(expr, "http_req_receiving.p50 < 50");
    let expr = translate_k6_expression("http_req_blocked", "p(90)<200");
    assert_eq!(expr, "http_req_blocked.p(90) < 200");
}

#[test]
fn space_around_the_parts_does_not_count() {
    assert_eq!(translate_k6_expression("m", "  avg \t<= \n 3  "), "m.avg <= 3");
    assert_eq!(translate_k6_expression("m", "\u{a0}sum\u{2003}!=\u{3000}4"), "m.sum != 4");
    assert_eq!(translate_k6_expression("m", "  avg < x  "), "avg < x");
}

#[test]
fn what_only_resembles_a_clause_passes_through() {
    for expr in [
        "",
        "avg",
        "avg<",
        "avg<5ms",
        "avg=5",
        "avg =< 5",
        "p(95<500",
        "p()<500",
        "p(9.)<5",
        "p(95)<5.",
        "p( 95)<5",
        "median<5",
        "avg<.5",
        "avg<- 5",
        "avg<+5",
        "AVG<5",
        "avg<5 6",
        "avg<1e3",
    ] {
        assert_eq!(translate_k6_expression("m", expr), expr, "{expr:?}");
    }
}

#[test]
fn operators_are_read_whole() {
    for (op, expr) in [
        ("<", "avg<-5"),
        (">", "avg>-5"),
        ("<=", "avg<=-5"),
        (">=", "avg>=-5"),
        ("==", "avg==-5"),
        ("!=", "avg!=-5"),
    ] {
        assert_eq!(translate_k6_expression("m", expr), format!("m.avg {op} -5"));
    }
}

#[test]
fn numbers_are_written_as_their_binary64_value_is() {
    for literal in [
        "0", "-0", "000", "-0.0", "007", "1.50", "0.10", "100", "1.0", "-2.500", "0.000001",
        "123456789012345", "99999999999999.9", "0.00000000000001",
    ] {
        let value: f64 = literal.parse().unwrap();
        let want = if value.fract() == 0.0 {
            format!("{value:.0}")
        } else {
            value.to_string()
        };
        assert_eq!(
            translate_k6_expression("m", &format!("avg<{literal}")),
            format!("m.avg < {want}"),
            "{literal}"
        );
        assert!(thresholds::wide_numbers(&format!("avg<{literal}")).is_empty(), "{literal}");
    }
}

#[test]
fn numbers_that_need_rounding_are_listed() {
    let expr = "avg<9007199254740993 && max<3 || min>0.1000000000000000055 && x<9999999999999999";
    assert_eq!(
        thresholds::wide_numbers(expr),
        vec!["9007199254740993".to_string(), "0.1000000000000000055".to_string()]
    );
    let mut rounded = StringMap::new();
    for number in thresholds::wide_numbers(expr) {
        let value: f64 = number.parse().unwrap();
        let text = if value.fract() == 0.0 {
            format!("{value:.0}")
        } else {
            value.to_string()
        };
        rounded.insert(number, text);
    }
    assert_eq!(
        thresholds::translate_k6_expression("m", expr, &rounded),
        "m.avg < 9007199254740992 && m.max < 3 || m.min > 0.1 && x<9999999999999999"
    );
}

#[test]
fn digits_outside_ascii_count_as_zero() {
    assert_eq!(translate_k6_expression("m", "avg<\u{0665}"), "m.avg < 0");
    assert_eq!(translate_k6_expression("m", "p(\u{0665}\u{0660})<5"), "m.p(\u{0665}\u{0660}) < 5");
}

#[test]
fn empty_clauses_keep_the_operators() {
    assert_eq!(translate_k6_expression("m", "avg<1 &&"), "m.avg < 1 && ");
    assert_eq!(translate_k6_expression("m", "|| avg<1"), " || m.avg < 1");
}

#[test]
fn what_was_translated_is_not_translated_again() {
    for metric in ["http_req_duration", "m{a:b}", "", "avg", "p(95)<5 ", "a&b|c"] {
        for expr in [
            "p(95)<500", " avg<200&&max<1000 || rate>0.9", "med<3", "x<1", "", "&&", "|| avg<1", "p.95<3",
            "avg<-0.50", "count == 9007199254740993 ",
        ] {
            let once = translate_k6_expression(metric, expr);
            assert_eq!(translate_k6_expression(metric, &once), once, "{metric:?} {expr:?}");
        }
    }
}
