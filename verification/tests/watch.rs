use codex_limits_telegram::codex::Observation;
use codex_limits_telegram::config::{lookup, next_wait, now, parse_number, Config};
use codex_limits_telegram::dotenv::{is_whitespace, parse_dotenv};
use codex_limits_telegram::message::{escape_html, human_duration, refill_message};
use codex_limits_telegram::percent::Percent;
use codex_limits_telegram::reconcile::{reconcile, Delivery, Notice, Reconciliation};
use codex_limits_telegram::state::State;
use codex_limits_telegram::text_map::TextMap;

fn percent(x: f64) -> Percent {
    Percent { bits: x.to_bits() }
}

#[test]
fn dotenv_parsing_handles_quotes_exports_and_comments() {
    let vars = parse_dotenv(
        "# a comment\nTELEGRAM_BOT_TOKEN=123:abc\nexport TELEGRAM_CHAT_ID=\"-100999\"\n\
             QUOTED='single'\nEMPTY=\n",
    );
    assert_eq!(vars.get("TELEGRAM_BOT_TOKEN").unwrap(), "123:abc");
    assert_eq!(vars.get("TELEGRAM_CHAT_ID").unwrap(), "-100999");
    assert_eq!(vars.get("QUOTED").unwrap(), "single");
    assert_eq!(vars.get("EMPTY").unwrap(), "");
    assert!(vars.get("# a comment").is_none());
    assert_eq!(vars.entries().len(), 4);
}

#[test]
fn dotenv_lines_may_be_spaced_and_repeated() {
    let vars = parse_dotenv(
        "\r\n  A = one \r\nno assignment\nA=two\n=nameless\nB=\"\nC='x\"\nD=\"a=b\"\nexportE=1\n\u{a0}F=\u{3000}v",
    );
    assert_eq!(vars.get("A").unwrap(), "two");
    assert_eq!(vars.get("").unwrap(), "nameless");
    assert_eq!(vars.get("B").unwrap(), "\"");
    assert_eq!(vars.get("C").unwrap(), "'x\"");
    assert_eq!(vars.get("D").unwrap(), "a=b");
    assert_eq!(vars.get("exportE").unwrap(), "1");
    assert_eq!(vars.get("F").unwrap(), "v");
    assert_eq!(vars.entries().len(), 7);
    assert!(parse_dotenv("").is_empty());
}

#[test]
fn whitespace_is_that_of_unicode() {
    for code in 0..=0x10ffffu32 {
        if let Some(c) = char::from_u32(code) {
            assert_eq!(is_whitespace(c), c.is_whitespace());
        }
    }
}

#[test]
fn human_duration_reads_naturally() {
    assert_eq!(human_duration(30), "less than a minute");
    assert_eq!(human_duration(900), "15m");
    assert_eq!(human_duration(11_520), "3h 12m");
    assert_eq!(human_duration(533_000), "6d 4h");
}

#[test]
fn durations_at_the_edges() {
    assert_eq!(human_duration(i64::MIN), "less than a minute");
    assert_eq!(human_duration(60), "less than a minute");
    assert_eq!(human_duration(61), "1m");
    assert_eq!(human_duration(3599), "59m");
    assert_eq!(human_duration(3600), "1h 0m");
    assert_eq!(human_duration(86399), "23h 59m");
    assert_eq!(human_duration(86400), "1d 0h");
    assert_eq!(human_duration(i64::MAX), "106751991167300d 15h");
}

#[test]
fn message_escapes_html_from_server_fields() {
    let obs = Observation {
        limit_id: "a<b>&c".into(),
        slot: "primary",
        label: "<weekly>".into(),
        used_percent: percent(0.0),
        window_duration_mins: Some(10080),
        resets_at: None,
    };
    let msg = refill_message(&obs, &format!("{:.0}", 100.0), 0);
    assert!(msg.contains("a&lt;b&gt;&amp;c"));
    assert!(msg.contains("&lt;weekly&gt;"));
    assert!(!msg.contains("<weekly>"));
}

#[test]
fn the_message_tells_all_that_is_known() {
    let mut obs = Observation {
        limit_id: "codex".into(),
        slot: "primary",
        label: "weekly".into(),
        used_percent: percent(0.0),
        window_duration_mins: Some(10080),
        resets_at: Some(1_000_533_000),
    };
    assert_eq!(
        refill_message(&obs, "73", 1_000_000_000),
        "\u{2705} <b>Codex limit back to 100%</b>\n\n<b>Limit:</b> codex\n<b>Window:</b> weekly\n\
         <b>Was:</b> 73% used \u{2192} <b>now:</b> 0% used (100% available)\n\
         <b>Window length:</b> 10080 min\n<b>Next reset:</b> in 6d 4h"
    );
    obs.window_duration_mins = None;
    assert_eq!(
        refill_message(&obs, "73", 1_000_533_000),
        "\u{2705} <b>Codex limit back to 100%</b>\n\n<b>Limit:</b> codex\n<b>Window:</b> weekly\n\
         <b>Was:</b> 73% used \u{2192} <b>now:</b> 0% used (100% available)"
    );
}

#[test]
fn a_reset_that_is_long_past_is_left_out() {
    let obs = Observation {
        limit_id: "codex".into(),
        slot: "primary",
        label: "weekly".into(),
        used_percent: percent(0.0),
        window_duration_mins: None,
        resets_at: Some(i64::MIN),
    };
    for now in [i64::MIN, 0, 1_786_000_000, i64::MAX] {
        assert!(!refill_message(&obs, "100", now).contains("Next reset"));
    }
    let soon = Observation { resets_at: Some(i64::MAX), ..obs };
    assert!(refill_message(&soon, "100", 0).ends_with("in 106751991167300d 15h"));
}

#[test]
fn escaping_matches_replacing() {
    for s in ["", "plain", "<>&", "&lt;", "a&b<c>d\u{e9}", "\"'"] {
        let replaced = s.replace('&', "&amp;").replace('<', "&lt;").replace('>', "&gt;");
        assert_eq!(escape_html(s), replaced);
    }
}

fn should_notify(previous: Option<f64>, used_now: f64) -> bool {
    codex_limits_telegram::reconcile::should_notify(previous.map(percent), percent(used_now))
}

#[test]
fn notifies_only_on_transition_into_full() {
    // exhausted -> refilled: the case we care about
    assert!(should_notify(Some(100.0), 0.0));
    // partially used -> refilled
    assert!(should_notify(Some(12.5), 0.0));

    // already full, stays full: no repeat pings every 10 minutes
    assert!(!should_notify(Some(0.0), 0.0));
    // first sighting is a baseline, not a change
    assert!(!should_notify(None, 0.0));
    // still being consumed
    assert!(!should_notify(Some(40.0), 55.0));
    // refilled but not fully
    assert!(!should_notify(Some(100.0), 3.0));
}

#[test]
fn full_cycle_notifies_exactly_once() {
    // Simulated week: burn down, reset, idle at full.
    let readings = [50.0, 80.0, 100.0, 100.0, 0.0, 0.0, 0.0, 20.0, 0.0];
    let mut previous: Option<f64> = None;
    let mut notifications = 0;

    for used in readings {
        if should_notify(previous, used) {
            notifications += 1;
        }
        previous = Some(used);
    }
    // Once at the reset after 100%, once after the later 20% dip.
    assert_eq!(notifications, 2);
}

fn observation(limit_id: &str, used: f64) -> Observation {
    Observation {
        limit_id: limit_id.to_string(),
        slot: "primary",
        label: "weekly".to_string(),
        used_percent: percent(used),
        window_duration_mins: None,
        resets_at: None,
    }
}

#[test]
fn a_first_run_records_a_baseline() {
    let polled = vec![observation("a", 0.0), observation("b", 40.0)];
    let failed = vec![Delivery::Failed, Delivery::Failed];
    let outcome = reconcile(polled, State::default(), &failed, 7);
    assert!(outcome.first_run);
    assert_eq!(outcome.sent, 0);
    assert_eq!(outcome.state.last_poll_at, Some(7));
    assert!(outcome.state.notified.is_empty());
    assert_eq!(outcome.state.last_used_percent.get("a::primary"), Some(&percent(0.0)));
    assert_eq!(outcome.state.last_used_percent.get("b::primary"), Some(&percent(40.0)));
}

fn used_state() -> State {
    let mut state = State::default();
    state.last_used_percent.insert("a::primary".to_string(), percent(100.0));
    state.last_used_percent.insert("b::primary".to_string(), percent(12.5));
    state
}

#[test]
fn refills_are_notified_and_recorded() {
    let polled = vec![observation("a", 0.0), observation("b", 0.0), observation("c", 0.0)];
    let delivered = vec![Delivery::Delivered { at: 5 }; 3];
    let outcome = reconcile(polled, used_state(), &delivered, 9);
    assert!(!outcome.first_run);
    assert_eq!(outcome.sent, 2);
    assert_eq!(outcome.state.notified.len(), 2);
    assert_eq!(outcome.state.notified[0].key, "a::primary");
    assert_eq!(outcome.state.notified[0].label, "weekly");
    assert_eq!(outcome.state.notified[0].at, 5);
    assert_eq!(outcome.state.notified[0].from_used_percent, percent(100.0));
    assert_eq!(outcome.state.notified[1].from_used_percent, percent(12.5));

    // Once notified, a limit that stays full is not notified again.
    let again = vec![observation("a", 0.0), observation("b", 0.0), observation("c", 0.0)];
    let outcome = reconcile(again, outcome.state, &delivered, 10);
    assert_eq!(outcome.sent, 0);
    assert_eq!(outcome.state.notified.len(), 2);
}

#[test]
fn a_failed_notification_is_retried_on_the_next_poll() {
    let mixed = vec![Delivery::Failed, Delivery::Delivered { at: 1 }];
    let polled = vec![observation("a", 0.0), observation("b", 0.0)];
    let outcome = reconcile(polled, used_state(), &mixed, 2);
    assert_eq!(outcome.sent, 1);
    assert_eq!(outcome.state.last_used_percent.get("a::primary"), Some(&percent(100.0)));
    assert_eq!(outcome.state.last_used_percent.get("b::primary"), Some(&percent(0.0)));

    let mut run = Reconciliation::start(vec![observation("a", 0.0)], outcome.state);
    assert_eq!(run.pending(), Some(Notice { index: 0, previous: percent(100.0) }));
    run.report(Delivery::Delivered { at: 3 });
    assert_eq!(run.pending(), None);
    let outcome = run.finish(4);
    assert_eq!(outcome.sent, 1);
    assert_eq!(outcome.state.notified.last().unwrap().at, 3);
    assert_eq!(outcome.state.last_poll_at, Some(4));
}

#[test]
fn a_poll_deals_with_each_window_on_its_own() {
    // One fails, one is delivered, one is still used, one is new, and one is not listed.
    let mut state = used_state();
    state.last_used_percent.insert("c::primary".to_string(), percent(30.0));
    state.last_used_percent.insert("e::primary".to_string(), percent(70.0));
    let windows = [("a", 0.0), ("b", 0.0), ("c", 45.0), ("d", 0.0)];
    let polled = || windows.iter().map(|(id, used)| observation(id, *used)).collect::<Vec<_>>();
    let deliveries = vec![
        Delivery::Failed,
        Delivery::Delivered { at: 1 },
        Delivery::Delivered { at: 1 },
        Delivery::Delivered { at: 1 },
    ];
    let outcome = reconcile(polled(), state, &deliveries, 2);
    assert_eq!(outcome.sent, 1);
    for (key, used) in [("a", 100.0), ("b", 0.0), ("c", 45.0), ("d", 0.0), ("e", 70.0)] {
        let key = format!("{key}::primary");
        assert_eq!(outcome.state.last_used_percent.get(&key), Some(&percent(used)));
    }

    // In the next poll only the one that failed is due.
    let mut run = Reconciliation::start(polled(), outcome.state);
    let notice = run.pending().unwrap();
    assert_eq!(notice, Notice { index: 0, previous: percent(100.0) });
    assert_eq!(run.observation(notice.index).limit_id, "a");
    run.report(Delivery::Delivered { at: 3 });
    assert_eq!(run.pending(), None);
    assert_eq!(run.finish(4).sent, 1);
}

#[test]
fn the_last_listing_of_a_window_decides() {
    let twice = || vec![observation("a", 0.0), observation("a", 0.0)];
    let delivered = Delivery::Delivered { at: 1 };

    // The second attempt is delivered: nothing is left for the next poll.
    let outcome = reconcile(twice(), used_state(), &vec![Delivery::Failed, delivered], 2);
    assert_eq!(outcome.sent, 1);
    assert_eq!(Reconciliation::start(twice(), outcome.state).pending(), None);

    // Both attempts fail: the next poll tries again.
    let outcome = reconcile(twice(), used_state(), &vec![Delivery::Failed, Delivery::Failed], 2);
    assert_eq!(outcome.sent, 0);
    let run = Reconciliation::start(twice(), outcome.state);
    assert_eq!(run.pending(), Some(Notice { index: 0, previous: percent(100.0) }));

    // A later reading that shows usage is what is remembered.
    let refilled_and_used = vec![observation("a", 0.0), observation("a", 8.0)];
    let outcome = reconcile(refilled_and_used, used_state(), &vec![delivered, delivered], 2);
    assert_eq!(outcome.sent, 1);
    assert_eq!(outcome.state.last_used_percent.get("a::primary"), Some(&percent(8.0)));
}

fn map(pairs: &[(&str, &str)]) -> TextMap<String> {
    let mut vars = TextMap::new();
    for (name, value) in pairs {
        vars.insert(name.to_string(), value.to_string());
    }
    vars
}

#[test]
fn the_environment_wins_over_the_file() {
    let env = map(&[("A", "env"), ("B", "")]);
    let file = map(&[("A", "file"), ("B", "file"), ("C", "")]);
    assert_eq!(lookup(&env, &file, "A").unwrap(), "env");
    assert_eq!(lookup(&env, &file, "B").unwrap(), "file");
    assert_eq!(lookup(&env, &file, "C"), None);
    assert_eq!(lookup(&env, &file, "D"), None);
}

#[test]
fn the_token_and_the_chat_are_required() {
    let none = map(&[]);
    assert_eq!(
        Config::load(&none, &none).err().unwrap(),
        "TELEGRAM_BOT_TOKEN is not set (checked environment and ./.env)"
    );
    let token = map(&[("TELEGRAM_BOT_TOKEN", "t")]);
    assert_eq!(
        Config::load(&token, &none).err().unwrap(),
        "TELEGRAM_CHAT_ID is not set (checked environment and ./.env)"
    );
}

#[test]
fn the_rest_has_defaults() {
    let required = map(&[("TELEGRAM_BOT_TOKEN", "t"), ("TELEGRAM_CHAT_ID", "c")]);
    let config = Config::load(&map(&[]), &required).ok().unwrap();
    assert_eq!(config.token, "t");
    assert_eq!(config.chat_id, "c");
    assert_eq!(config.codex_bin, "codex");
    assert_eq!(config.interval, 600);
    assert_eq!(config.state_path.base, ".");
    assert_eq!(config.state_path.segments, vec!["codex-limits-telegram/state.json"]);

    let home = map(&[("HOME", "/h"), ("POLL_INTERVAL_SECS", "0"), ("CODEX_BIN", "/bin/codex")]);
    let config = Config::load(&home, &required).ok().unwrap();
    assert_eq!(config.codex_bin, "/bin/codex");
    assert_eq!(config.interval, 600);
    assert_eq!(config.state_path.base, "/h");
    assert_eq!(
        config.state_path.segments,
        vec![".local/state", "codex-limits-telegram/state.json"]
    );

    let xdg = map(&[("HOME", "/h"), ("XDG_STATE_HOME", "/x"), ("POLL_INTERVAL_SECS", "+30")]);
    let config = Config::load(&xdg, &required).ok().unwrap();
    assert_eq!(config.interval, 30);
    assert_eq!(config.state_path.base, "/x");
    assert_eq!(config.state_path.segments, vec!["codex-limits-telegram/state.json"]);

    let path = map(&[("XDG_STATE_HOME", "/x"), ("STATE_PATH", "/s.json")]);
    let config = Config::load(&path, &required).ok().unwrap();
    assert_eq!(config.state_path.base, "/s.json");
    assert!(config.state_path.segments.is_empty());
}

#[test]
fn numbers_are_read_as_std_reads_them() {
    for s in [
        "", "+", "-1", "0", "007", "+12", "++1", " 1", "1 ", "12a",
        "18446744073709551615", "18446744073709551616", "99999999999999999999999x", "\u{0663}",
    ] {
        assert_eq!(parse_number(s), s.parse::<u64>().ok());
    }
}

#[test]
fn a_failed_poll_is_retried_sooner() {
    assert_eq!(next_wait(true, 600), 600);
    assert_eq!(next_wait(false, 600), 60);
    assert_eq!(next_wait(false, 10), 10);
}

#[test]
fn the_clock_is_read_in_unix_seconds() {
    assert_eq!(now(Some(1_786_000_000)), 1_786_000_000);
    assert_eq!(now(None), 0);
    assert_eq!(now(Some(u64::MAX)), u64::MAX as i64);
    assert_eq!(now(Some(1 << 63)), i64::MIN);
}
