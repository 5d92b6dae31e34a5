use codex_limits_telegram::handshake::{
    await_response, initialize_request, initialized_notification, judge, line_of,
    rate_limits_request, Handshake, Phase, Reply, Step, Verdict,
};
use codex_limits_telegram::telegram::{outcome, refusal, Response, Telegram};
use codex_limits_telegram::text::{place, push_signed_decimal, Place};
use serde_json::Value;

#[test]
fn requests_are_worded_as_the_protocol_has_them() {
    assert_eq!(
        line_of(&initialize_request("1.2.3")),
        "{\"id\":0,\"jsonrpc\":\"2.0\",\"method\":\"initialize\",\"params\":{\"clientInfo\":\
         {\"name\":\"codex-limits-telegram\",\"title\":\"codex-limits-telegram\",\
         \"version\":\"1.2.3\"}}}"
    );
    assert_eq!(
        line_of(&initialized_notification()),
        "{\"jsonrpc\":\"2.0\",\"method\":\"initialized\",\"params\":{}}"
    );
    assert_eq!(
        line_of(&rate_limits_request()),
        "{\"id\":1,\"jsonrpc\":\"2.0\",\"method\":\"account/rateLimits/read\",\"params\":null}"
    );
}

fn answered(line: &str, id: i64) -> Option<Value> {
    match await_response(line, id) {
        Reply::Answered(value) => Some(value),
        _ => None,
    }
}

fn failed(line: &str, id: i64) -> Option<String> {
    match await_response(line, id) {
        Reply::Failed(e) => Some(e),
        _ => None,
    }
}

#[test]
fn lines_that_are_not_the_response_are_ignored() {
    for line in [
        "",
        "Welcome to codex",
        "{\"id\":0",
        "[0]",
        "7",
        "{\"method\":\"note\",\"params\":{}}",
        "{\"id\":1,\"result\":{}}",
        "{\"id\":\"0\",\"result\":{}}",
        "{\"id\":0.5,\"result\":{}}",
        "{\"id\":null,\"error\":\"x\"}",
        "{\"id\":18446744073709551615,\"result\":{}}",
    ] {
        assert!(matches!(await_response(line, 0), Reply::Ignored));
    }
}

#[test]
fn the_response_carries_its_result() {
    let value = answered("{\"id\":1,\"result\":{\"a\":[1,2.5,\"x\"]}}", 1).unwrap();
    assert_eq!(value.to_string(), "{\"a\":[1,2.5,\"x\"]}");
    assert_eq!(answered("{\"id\":0,\"result\":null}", 0), Some(Value::Null));
}

#[test]
fn errors_and_missing_results_fail_the_request() {
    assert_eq!(
        failed("{\"id\":0, \"error\": {\"message\" : \"no\", \"code\": -3}, \"result\": 1}", 0)
            .unwrap(),
        "app-server error on request 0: {\"code\":-3,\"message\":\"no\"}"
    );
    assert_eq!(
        failed("{\"id\":1,\"error\":null}", 1).unwrap(),
        "app-server error on request 1: null"
    );
    assert_eq!(failed("{\"id\":-7}", -7).unwrap(), "response -7 had no result");
}

#[test]
fn messages_are_judged_by_what_they_hold() {
    assert!(matches!(judge(None, None, true, 0), Verdict::Ignore));
    assert!(matches!(judge(Some(1), Some("e".to_string()), true, 0), Verdict::Ignore));
    assert!(matches!(judge(Some(0), None, true, 0), Verdict::Accept));
    match judge(Some(0), Some("e".to_string()), true, 0) {
        Verdict::Fail(e) => assert_eq!(e, "app-server error on request 0: e"),
        _ => panic!("an error fails the request"),
    }
    match judge(Some(0), None, false, 0) {
        Verdict::Fail(e) => assert_eq!(e, "response 0 had no result"),
        _ => panic!("a response needs a result"),
    }
}

#[test]
fn the_exchange_runs_in_two_phases() {
    let (mut handshake, first) = Handshake::start("0.1.0");
    assert_eq!(line_of(&first), line_of(&initialize_request("0.1.0")));
    assert_eq!(handshake.timed_out(), "timed out waiting for response to request 0");
    assert!(matches!(handshake.receive("banner"), Step::Wait));
    assert!(matches!(handshake.receive("{\"id\":1,\"result\":1}"), Step::Wait));
    assert_eq!(handshake.phase, Phase::Initializing);
    match handshake.receive("{\"id\":0,\"result\":{}}") {
        Step::Send(one, two) => {
            assert_eq!(line_of(&one), line_of(&initialized_notification()));
            assert_eq!(line_of(&two), line_of(&rate_limits_request()));
        }
        _ => panic!("the first response is followed by the request for the limits"),
    }
    assert_eq!(handshake.timed_out(), "timed out waiting for response to request 1");
    assert!(matches!(handshake.receive("{\"method\":\"note\"}"), Step::Wait));
    match handshake.receive("{\"id\":1,\"result\":{\"rateLimits\":null}}") {
        Step::Done(value) => assert_eq!(value.to_string(), "{\"rateLimits\":null}"),
        _ => panic!("the second response completes the exchange"),
    }
}

#[test]
fn an_error_ends_the_exchange() {
    let (mut handshake, _) = Handshake::start("0.1.0");
    match handshake.receive("{\"id\":0,\"error\":\"no\"}") {
        Step::Failed(e) => assert_eq!(e, "app-server error on request 0: \"no\""),
        _ => panic!("an error ends the exchange"),
    }
}

#[test]
fn a_post_goes_to_the_bot_and_names_the_chat() {
    let bot = Telegram::new("123:abc".to_string(), "-100".to_string());
    let post = bot.send("<b>hi</b>");
    assert_eq!(post.url, "https://api.telegram.org/bot123:abc/sendMessage");
    assert_eq!(
        post.body.to_string(),
        "{\"chat_id\":\"-100\",\"disable_web_page_preview\":true,\"parse_mode\":\"HTML\",\
         \"text\":\"<b>hi</b>\"}"
    );
}

#[test]
fn refusals_surface_the_description() {
    assert_eq!(outcome(Response::Accepted), Ok(()));
    assert_eq!(
        outcome(Response::Status(
            400,
            "{\"ok\":false,\"description\":\"Bad Request: chat not found\"}".to_string()
        )),
        Err("telegram sendMessage returned 400: Bad Request: chat not found".to_string())
    );
    for body in ["", "<html>", "{\"description\":5}", "{}", "[\"description\"]"] {
        assert_eq!(
            outcome(Response::Status(502, body.to_string())),
            Err(format!("telegram sendMessage returned 502: {}", body))
        );
    }
    assert_eq!(
        outcome(Response::Transport("Dns Failed".to_string())),
        Err("telegram request failed: Dns Failed".to_string())
    );
    assert_eq!(
        refusal(404, "body".to_string(), Some("told".to_string())),
        "telegram sendMessage returned 404: told"
    );
}

#[test]
fn texts_are_placed_as_strings_are_ordered() {
    let texts = ["", "a", "ab", "b", "a\u{e9}", "\u{ffff}", "\u{10000}", "A"];
    for a in texts {
        for b in texts {
            let expected = if a < b {
                Place::Before
            } else if a == b {
                Place::Same
            } else {
                Place::After
            };
            assert_eq!(place(a, b), expected);
        }
    }
}

#[test]
fn numbers_are_written_in_decimal() {
    for n in [0, 7, 10, -1, 1234567890, i64::MAX, i64::MIN] {
        let mut out = String::from("n=");
        push_signed_decimal(&mut out, n);
        assert_eq!(out, format!("n={}", n));
    }
}
