use codex_limits_telegram::by_key::sort_by_key;
use codex_limits_telegram::codex::{
    flatten, infer_name, read_rate_limits, Limit, Observation, RateLimitsResult, Window,
};
use codex_limits_telegram::percent::Percent;
use codex_limits_telegram::text_map::TextMap;
use serde_json::Value;

fn percent(x: f64) -> Percent {
    Percent { bits: x.to_bits() }
}

fn window(value: &Value) -> Option<Window> {
    if !value.is_object() {
        return None;
    }
    Some(Window {
        used_percent: value.get("usedPercent").and_then(Value::as_f64).map(percent),
        window_duration_mins: value.get("windowDurationMins").and_then(Value::as_u64),
        resets_at: value.get("resetsAt").and_then(Value::as_i64),
    })
}

fn limit(value: &Value) -> Limit {
    Limit {
        limit_id: value.get("limitId").and_then(Value::as_str).map(str::to_string),
        limit_name: value.get("limitName").and_then(Value::as_str).map(str::to_string),
        primary: value.get("primary").and_then(window),
        secondary: value.get("secondary").and_then(window),
    }
}

fn answer(raw: &str) -> RateLimitsResult {
    let value: Value = serde_json::from_str(raw).unwrap();
    let mut listed = TextMap::new();
    if let Some(limits) = value.get("rateLimitsByLimitId").and_then(Value::as_object) {
        for (id, one) in limits {
            listed.insert(id.clone(), limit(one));
        }
    }
    RateLimitsResult {
        rate_limits: value.get("rateLimits").filter(|l| l.is_object()).map(limit),
        rate_limits_by_limit_id: listed,
    }
}

fn flattened(parsed: &RateLimitsResult) -> Vec<Observation> {
    let mut obs = Vec::new();
    for (id, limit) in parsed.rate_limits_by_limit_id.entries() {
        flatten(id, limit, &mut obs);
    }
    obs
}

#[test]
fn names_are_inferred_from_duration() {
    assert_eq!(infer_name(Some(10080)), "weekly");
    assert_eq!(infer_name(Some(1440)), "daily");
    assert_eq!(infer_name(Some(300)), "5h");
    assert_eq!(infer_name(Some(30)), "30m");
    assert_eq!(infer_name(None), "unknown-window");
}

#[test]
fn parses_live_response_shape() {
    // Verbatim result payload from codex-cli 0.144.5.
    let raw = r#"{
          "rateLimits": {"limitId":"codex","limitName":null,
            "primary":{"usedPercent":100,"windowDurationMins":10080,"resetsAt":1786160279},
            "secondary":null},
          "rateLimitsByLimitId": {
            "codex_bengalfox":{"limitId":"codex_bengalfox","limitName":"GPT-5.3-Codex-Spark",
              "primary":{"usedPercent":0,"windowDurationMins":10080,"resetsAt":1786655372},
              "secondary":null},
            "codex":{"limitId":"codex","limitName":null,
              "primary":{"usedPercent":100,"windowDurationMins":10080,"resetsAt":1786160279},
              "secondary":null}
          }
        }"#;

    let obs = sort_by_key(flattened(&answer(raw)));

    assert_eq!(obs.len(), 2);
    assert_eq!(obs[0].key(), "codex::primary");
    assert_eq!(obs[0].label, "weekly"); // limitName was null -> inferred
    assert!(!obs[0].is_full());
    assert_eq!(obs[0].remaining_percent(), percent(0.0));

    assert_eq!(obs[1].limit_id, "codex_bengalfox");
    assert_eq!(obs[1].label, "GPT-5.3-Codex-Spark");
    assert!(obs[1].is_full());
    assert_eq!(obs[1].remaining_percent(), percent(100.0));

    let read = read_rate_limits(Ok(answer(raw))).unwrap();
    assert_eq!(read.len(), 2);
    assert_eq!(read[0].key(), "codex::primary");
    assert_eq!(read[0].resets_at, Some(1786160279));
    assert_eq!(read[0].window_duration_mins, Some(10080));
    assert_eq!(read[1].key(), "codex_bengalfox::primary");
}

#[test]
fn unknown_limit_ids_are_retained() {
    let raw = r#"{"rateLimitsByLimitId":{"brand_new_thing":{
            "primary":{"usedPercent":42.5,"windowDurationMins":180}}}}"#;
    let obs = flattened(&answer(raw));
    assert_eq!(obs.len(), 1);
    assert_eq!(obs[0].limit_id, "brand_new_thing");
    assert_eq!(obs[0].label, "3h");
    assert_eq!(obs[0].used_percent, percent(42.5));
}

#[test]
fn every_kind_of_window_has_its_name() {
    assert_eq!(infer_name(Some(0)), "instant");
    assert_eq!(infer_name(Some(1)), "1m");
    assert_eq!(infer_name(Some(90)), "90m");
    assert_eq!(infer_name(Some(91)), "1h31m");
    assert_eq!(infer_name(Some(120)), "2h");
    assert_eq!(infer_name(Some(1439)), "23h59m");
    assert_eq!(infer_name(Some(1441)), "24h");
    assert_eq!(infer_name(Some(2880)), "2d");
    assert_eq!(infer_name(Some(40319)), "671h");
    assert_eq!(infer_name(Some(40320)), "monthly");
    assert_eq!(infer_name(Some(44640)), "monthly");
    assert_eq!(infer_name(Some(44641)), "744h");
    assert_eq!(infer_name(Some(u64::MAX)), "307445734561825860h");
}

#[test]
fn both_windows_of_a_limit_are_tracked() {
    let raw = r#"{"rateLimitsByLimitId":{"listed":{"limitId":"own","limitName":"",
            "primary":{"usedPercent":1,"windowDurationMins":300},
            "secondary":{"usedPercent":2}}}}"#;
    let obs = flattened(&answer(raw));
    assert_eq!(obs.len(), 2);
    assert_eq!(obs[0].key(), "own::primary");
    assert_eq!(obs[0].label, "5h");
    assert_eq!(obs[1].key(), "own::secondary");
    assert_eq!(obs[1].label, "unknown-window");
}

#[test]
fn windows_without_a_usage_figure_are_skipped() {
    let raw = r#"{"rateLimitsByLimitId":{"a":{"primary":{"windowDurationMins":300}}}}"#;
    assert!(flattened(&answer(raw)).is_empty());
    assert_eq!(
        read_rate_limits(Ok(answer(raw))).unwrap_err(),
        "app-server returned no usable rate-limit windows"
    );
}

#[test]
fn older_servers_fill_the_singular_field() {
    let raw = r#"{"rateLimits":{"primary":{"usedPercent":7,"windowDurationMins":1440}}}"#;
    let obs = read_rate_limits(Ok(answer(raw))).unwrap();
    assert_eq!(obs.len(), 1);
    assert_eq!(obs[0].key(), "codex::primary");
    assert_eq!(obs[0].label, "daily");
}

#[test]
fn an_answer_of_another_shape_is_an_error() {
    assert_eq!(
        read_rate_limits(Err("invalid type: null".to_string())).unwrap_err(),
        "unexpected account/rateLimits/read shape: invalid type: null"
    );
}

fn observation(limit_id: &str, slot: &'static str, label: &str) -> Observation {
    Observation {
        limit_id: limit_id.to_string(),
        slot,
        label: label.to_string(),
        used_percent: percent(0.0),
        window_duration_mins: None,
        resets_at: None,
    }
}

#[test]
fn observations_are_sorted_stably_by_key() {
    let sorted = sort_by_key(vec![
        observation("b", "primary", "1"),
        observation("a", "secondary", "2"),
        observation("b", "primary", "3"),
        observation("\u{e9}", "primary", "4"),
        observation("a", "primary", "5"),
        observation("", "primary", "6"),
    ]);
    let labels: Vec<&str> = sorted.iter().map(|o| o.label.as_str()).collect();
    assert_eq!(labels, vec!["6", "5", "2", "1", "3", "4"]);
}

#[test]
fn keys_tell_windows_apart() {
    assert_ne!(
        observation("a", "primary", "").key(),
        observation("a", "secondary", "").key()
    );
    assert_eq!(
        observation("a", "primary", "old name").key(),
        observation("a", "primary", "new name").key()
    );
}

#[test]
fn readings_agree_with_doubles() {
    let samples = [
        0.0,
        -0.0,
        f64::MIN_POSITIVE,
        5e-324,
        f64::EPSILON,
        f64::EPSILON / 2.0,
        f64::EPSILON * 1.5,
        1.0,
        12.5,
        99.999,
        100.0,
        100.00000000000001,
        1e300,
        f64::INFINITY,
        f64::NEG_INFINITY,
        -5e-324,
        -3.0,
        -1e300,
        f64::NAN,
        -f64::NAN,
    ];
    for x in samples {
        let p = percent(x);
        assert_eq!(p.at_most_epsilon(), x <= f64::EPSILON);
        assert_eq!(p.exceeds_epsilon(), x > f64::EPSILON);
        check_remaining(x);
    }
}

fn check_remaining(x: f64) {
    let left = percent(x).remaining();
    let rest = (100.0 - x).clamp(0.0, 100.0);
    if rest.is_nan() {
        assert!(f64::from_bits(left.bits).is_nan());
    } else {
        assert_eq!(left.bits, rest.to_bits());
    }
}

#[test]
fn what_is_left_is_rounded_as_doubles_are() {
    assert_eq!(percent(12.5).remaining(), percent(87.5));
    assert_eq!(percent(0.1).remaining(), percent(99.9));
    assert_eq!(percent(-0.0).remaining(), percent(100.0));

    // Around the places where the spacing of doubles changes, and where ties occur.
    for power in -60..=7 {
        let start = f64::powi(2.0, power);
        for (whole, step) in [(0.0, 1.0), (36.0, 1.0), (36.0, -1.0), (68.0, 1.0), (100.0, -1.0)] {
            let near: f64 = whole + step * start;
            for offset in 0..5u64 {
                check_remaining(f64::from_bits(near.to_bits().wrapping_add(offset)));
                check_remaining(f64::from_bits(near.to_bits().wrapping_sub(offset)));
            }
        }
        for parts in 1..40 {
            check_remaining(start * f64::from(parts) / 8.0);
        }
    }

    let mut seed: u64 = 0x9e37_79b9_7f4a_7c15;
    for _ in 0..200_000 {
        seed = seed.wrapping_mul(6_364_136_223_846_793_005).wrapping_add(1_442_695_040_888_963_407);
        check_remaining(f64::from_bits(seed));
        check_remaining((seed >> 11) as f64 / (1u64 << 53) as f64 * 101.0);
        // Between 2^-60 and 2^7.
        check_remaining(f64::from_bits(((963 + (seed >> 32) % 68) << 52) | (seed >> 12)));
    }
}

#[test]
fn a_full_limit_has_all_of_it_left_to_the_last_bit() {
    for used in [0.0, -0.0, 5e-324, f64::MIN_POSITIVE, f64::EPSILON, -1.0, f64::NEG_INFINITY] {
        let obs = Observation {
            limit_id: "codex".to_string(),
            slot: "primary",
            label: "weekly".to_string(),
            used_percent: percent(used),
            window_duration_mins: None,
            resets_at: None,
        };
        assert!(obs.is_full());
        assert_eq!(obs.remaining_percent(), percent(100.0));
    }
}
