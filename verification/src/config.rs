//! The configuration, from the environment and a `.env` file.
use crate::dotenv::texts;
use crate::text::{
    a_digit_more_counts_tenfold, all_digits, chars_of, is_numeral, value_of,
};
use crate::text_map::TextMap;
use vstd::prelude::*;

verus! {

/// Seconds between two polls, unless configured otherwise: 10 minutes.
pub const DEFAULT_INTERVAL_SECS: u64 = 600;

/// Backoff after a failed poll so a flaky app-server doesn't wait a full cycle.
pub const RETRY_SECS: u64 = 60;

/// A path: `base`, with each of the segments joined to it in turn.
#[derive(Debug)]
pub struct StatePath {
    pub base: String,
    pub segments: Vec<String>,
}

/// What the watcher is configured with.
pub struct Config {
    pub token: String,
    pub chat_id: String,
    pub codex_bin: String,
    pub state_path: StatePath,
    /// Seconds between two polls.
    pub interval: u64,
}

/// The value of a variable: from the environment, else from the file. An empty value counts as
/// none.
pub open spec fn setting(
    env: Map<Seq<char>, Seq<char>>,
    file: Map<Seq<char>, Seq<char>>,
    name: Seq<char>,
) -> Option<Seq<char>> {
    if env.contains_key(name) && env[name].len() > 0 {
        Some(env[name])
    } else if file.contains_key(name) && file[name].len() > 0 {
        Some(file[name])
    } else {
        None
    }
}

/// The value of a variable: the real environment wins over the file, so that it can override.
pub fn lookup(env: &TextMap<String>, file: &TextMap<String>, name: &str) -> (r: Option<String>)
    ensures
        match setting(texts(env@), texts(file@), name@) {
            Some(value) => r matches Some(s) && s@ == value,
            None => r is None,
        },
{
    match env.get(name) {
        Some(value) => {
            if !value.as_str().is_empty() {
                return Some(value.clone());
            }
        },
        None => {},
    }
    match file.get(name) {
        Some(value) => {
            if !value.as_str().is_empty() {
                return Some(value.clone());
            }
        },
        None => {},
    }
    None
}

/// Whether a character is a decimal digit.
pub open spec fn is_digit(c: char) -> bool {
    '0' <= c <= '9'
}

/// The number that a row of digits stands for.
pub open spec fn digits_value(digits: Seq<char>) -> nat
    decreases digits.len(),
{
    if digits.len() == 0 {
        0
    } else {
        digits_value(digits.drop_last()) * 10 + (digits.last() as nat - '0' as nat) as nat
    }
}

/// The digits of a number, after the plus sign that may stand before them.
pub open spec fn digits_of(s: Seq<char>) -> Seq<char> {
    if s.len() > 0 && s[0] == '+' {
        s.drop_first()
    } else {
        s
    }
}

/// The number that a text stands for, where it is one or more digits, after an optional plus
/// sign, and in the range of a `u64`.
pub open spec fn number(s: Seq<char>) -> Option<u64> {
    let digits = digits_of(s);
    if digits.len() > 0 && (forall|i: int| 0 <= i < digits.len() ==> is_digit(#[trigger] digits[i]))
        && digits_value(digits) <= u64::MAX {
        Some(digits_value(digits) as u64)
    } else {
        None
    }
}

/// Reads a number.
pub fn parse_number(s: &str) -> (r: Option<u64>)
    ensures
        r == number(s@),
{
    let chars: Vec<char> = chars_of(s);
    let ghost digits = digits_of(s@);
    let start: usize = if chars.len() > 0 && chars[0] == '+' {
        1
    } else {
        0
    };
    assert(digits =~= chars@.skip(start as int));
    if start == chars.len() {
        return None;
    }
    let mut value: u64 = 0;
    let mut i: usize = start;
    let mut fits: bool = true;
    assert(digits.take(0) =~= Seq::empty());
    while i < chars.len()
        invariant
            start <= i <= chars@.len(),
            digits == digits_of(s@),
            digits == chars@.skip(start as int),
            forall|j: int| 0 <= j < i - start ==> is_digit(#[trigger] digits[j]),
            fits ==> value == digits_value(digits.take(i - start)),
            !fits ==> digits_value(digits.take(i - start)) > u64::MAX,
        decreases chars@.len() - i,
    {
        let c: char = chars[i];
        proof {
            assert(digits[i - start] == c);
            assert(digits.take(i + 1 - start).drop_last() =~= digits.take(i - start));
        }
        if !('0' <= c && c <= '9') {
            assert(!is_digit(digits[i - start]));
            return None;
        }
        let d: u64 = (c as u32 - '0' as u32) as u64;
        if fits {
            match value.checked_mul(10) {
                Some(tens) => match tens.checked_add(d) {
                    Some(sum) => {
                        value = sum;
                    },
                    None => {
                        fits = false;
                    },
                },
                None => {
                    fits = false;
                },
            }
        }
        i = i + 1;
    }
    assert(digits.take(i - start) =~= digits);
    if fits {
        Some(value)
    } else {
        None
    }
}

/// What a setting says of the seconds between two polls: a positive number, else the default.
pub open spec fn interval_of(value: Option<Seq<char>>) -> u64 {
    match value {
        Some(s) => match number(s) {
            Some(n) if n > 0 => n,
            _ => DEFAULT_INTERVAL_SECS,
        },
        None => DEFAULT_INTERVAL_SECS,
    }
}

/// Where the state is kept: where configured, else below the state directory, else below the home
/// directory, else below the current one.
pub open spec fn state_path_of(
    state_path: Option<Seq<char>>,
    state_home: Option<Seq<char>>,
    home: Option<Seq<char>>,
) -> (Seq<char>, Seq<Seq<char>>) {
    match (state_path, state_home, home) {
        (Some(path), _, _) => (path, Seq::empty()),
        (None, Some(base), _) => (base, seq!["codex-limits-telegram/state.json"@]),
        (None, None, Some(home)) => (
            home,
            seq![".local/state"@, "codex-limits-telegram/state.json"@],
        ),
        (None, None, None) => ("."@, seq!["codex-limits-telegram/state.json"@]),
    }
}

impl StatePath {
    /// What the path says.
    pub open spec fn parts(self) -> (Seq<char>, Seq<Seq<char>>) {
        (self.base@, Seq::new(self.segments@.len(), |i: int| self.segments@[i]@))
    }
}

/// Where the state is kept.
fn choose_state_path(
    state_path: Option<String>,
    state_home: Option<String>,
    home: Option<String>,
) -> (r: StatePath)
    ensures
        r.parts() == state_path_of(
            match state_path {
                Some(s) => Some(s@),
                None => None,
            },
            match state_home {
                Some(s) => Some(s@),
                None => None,
            },
            match home {
                Some(s) => Some(s@),
                None => None,
            },
        ),
{
    let mut segments: Vec<String> = Vec::new();
    match state_path {
        Some(path) => {
            let r: StatePath = StatePath { base: path, segments };
            assert(r.parts().1 =~= Seq::empty());
            return r;
        },
        None => {},
    }
    let base: String = match state_home {
        Some(base) => base,
        None => match home {
            Some(home) => {
                segments.push(".local/state".to_string());
                home
            },
            None => ".".to_string(),
        },
    };
    segments.push("codex-limits-telegram/state.json".to_string());
    let r: StatePath = StatePath { base, segments };
    proof {
        if state_home is None && home is Some {
            assert(r.parts().1 =~= seq![".local/state"@, "codex-limits-telegram/state.json"@]);
        } else {
            assert(r.parts().1 =~= seq!["codex-limits-telegram/state.json"@]);
        }
    }
    r
}

/// What a configuration says.
pub struct ConfigView {
    pub token: Seq<char>,
    pub chat_id: Seq<char>,
    pub codex_bin: Seq<char>,
    pub state_path: (Seq<char>, Seq<Seq<char>>),
    pub interval: u64,
}

impl View for Config {
    type V = ConfigView;

    open spec fn view(&self) -> ConfigView {
        ConfigView {
            token: self.token@,
            chat_id: self.chat_id@,
            codex_bin: self.codex_bin@,
            state_path: self.state_path.parts(),
            interval: self.interval,
        }
    }
}

/// What the variables of the environment and of the file configure, or the error that says what is
/// missing.
pub open spec fn configured(
    env: Map<Seq<char>, Seq<char>>,
    file: Map<Seq<char>, Seq<char>>,
) -> Result<ConfigView, Seq<char>> {
    let get = |name: Seq<char>| setting(env, file, name);
    match (get("TELEGRAM_BOT_TOKEN"@), get("TELEGRAM_CHAT_ID"@)) {
        (None, _) => Err("TELEGRAM_BOT_TOKEN is not set (checked environment and ./.env)"@),
        (Some(_), None) => Err("TELEGRAM_CHAT_ID is not set (checked environment and ./.env)"@),
        (Some(token), Some(chat_id)) => Ok(
            ConfigView {
                token,
                chat_id,
                codex_bin: match get("CODEX_BIN"@) {
                    Some(bin) => bin,
                    None => "codex"@,
                },
                state_path: state_path_of(get("STATE_PATH"@), get("XDG_STATE_HOME"@), get("HOME"@)),
                interval: interval_of(get("POLL_INTERVAL_SECS"@)),
            },
        ),
    }
}

impl Config {
    /// Reads the configuration from the variables of the environment and those of the file.
    pub fn load(env: &TextMap<String>, file: &TextMap<String>) -> (r: Result<Config, String>)
        ensures
            ({
                let get = |name: Seq<char>| setting(texts(env@), texts(file@), name);
                match (get("TELEGRAM_BOT_TOKEN"@), get("TELEGRAM_CHAT_ID"@)) {
                    (None, _) => r matches Err(e) && e@
                        == "TELEGRAM_BOT_TOKEN is not set (checked environment and ./.env)"@,
                    (Some(_), None) => r matches Err(e) && e@
                        == "TELEGRAM_CHAT_ID is not set (checked environment and ./.env)"@,
                    (Some(token), Some(chat_id)) => r matches Ok(config) && {
                        &&& config.token@ == token
                        &&& config.chat_id@ == chat_id
                        &&& config.codex_bin@ == (match get("CODEX_BIN"@) {
                            Some(bin) => bin,
                            None => "codex"@,
                        })
                        &&& config.state_path.parts() == state_path_of(
                            get("STATE_PATH"@),
                            get("XDG_STATE_HOME"@),
                            get("HOME"@),
                        )
                        &&& config.interval == interval_of(get("POLL_INTERVAL_SECS"@))
                    },
                }
            }),
            match configured(texts(env@), texts(file@)) {
                Ok(said) => r matches Ok(config) && config@ == said,
                Err(missing) => r matches Err(e) && e@ == missing,
            },
    {
        let token: String = match lookup(env, file, "TELEGRAM_BOT_TOKEN") {
            Some(token) => token,
            None => {
                return Err(
                    "TELEGRAM_BOT_TOKEN is not set (checked environment and ./.env)".to_string(),
                );
            },
        };
        let chat_id: String = match lookup(env, file, "TELEGRAM_CHAT_ID") {
            Some(chat_id) => chat_id,
            None => {
                return Err(
                    "TELEGRAM_CHAT_ID is not set (checked environment and ./.env)".to_string(),
                );
            },
        };
        let state_path: StatePath = choose_state_path(
            lookup(env, file, "STATE_PATH"),
            lookup(env, file, "XDG_STATE_HOME"),
            lookup(env, file, "HOME"),
        );
        let interval: u64 = match lookup(env, file, "POLL_INTERVAL_SECS") {
            Some(value) => match parse_number(value.as_str()) {
                Some(n) => if n > 0 {
                    n
                } else {
                    DEFAULT_INTERVAL_SECS
                },
                None => DEFAULT_INTERVAL_SECS,
            },
            None => DEFAULT_INTERVAL_SECS,
        };
        let codex_bin: String = match lookup(env, file, "CODEX_BIN") {
            Some(bin) => bin,
            None => "codex".to_string(),
        };
        Ok(Config { token, chat_id, codex_bin, state_path, interval })
    }
}

/// Seconds to wait until the next poll: the whole interval after one that succeeded, and no more
/// than the backoff after one that failed.
pub open spec fn wait_after(succeeded: bool, interval: u64) -> u64 {
    if succeeded || interval < RETRY_SECS {
        interval
    } else {
        RETRY_SECS
    }
}

/// Seconds to wait until the next poll.
pub fn next_wait(succeeded: bool, interval: u64) -> (r: u64)
    ensures
        r == wait_after(succeeded, interval),
{
    if succeeded || interval < RETRY_SECS {
        interval
    } else {
        RETRY_SECS
    }
}

/// The time in Unix seconds that a clock gives, as a signed number of 64 bits.
pub open spec fn clock_time(since_epoch: Option<u64>) -> int {
    match since_epoch {
        Some(secs) => if secs <= i64::MAX {
            secs as int
        } else {
            secs - 0x1_0000_0000_0000_0000
        },
        None => 0,
    }
}

/// The time in Unix seconds, from the seconds that the clock counts since the epoch; a clock that
/// stands before the epoch gives 0.
pub fn now(since_epoch: Option<u64>) -> (r: i64)
    ensures
        match since_epoch {
            Some(secs) => r == (if secs <= i64::MAX {
                secs as int
            } else {
                secs - 0x1_0000_0000_0000_0000
            }),
            None => r == 0,
        },
        r == clock_time(since_epoch),
{
    match since_epoch {
        Some(secs) => {
            if secs <= i64::MAX as u64 {
                secs as i64
            } else {
                -((u64::MAX - secs) as i64) - 1
            }
        },
        None => 0,
    }
}

/// The real environment wins: a variable that it sets to something has that value, whatever the
/// file says, and one that it does not set, or leaves empty, has the value from the file.
pub proof fn the_environment_wins(
    env: Map<Seq<char>, Seq<char>>,
    file: Map<Seq<char>, Seq<char>>,
    name: Seq<char>,
)
    ensures
        env.contains_key(name) && env[name].len() > 0 ==> setting(env, file, name) == Some(
            env[name],
        ),
        !env.contains_key(name) || env[name].len() == 0 ==> setting(env, file, name) == setting(
            Map::empty(),
            file,
            name,
        ),
        setting(env, file, name) matches Some(value) ==> value.len() > 0,
{
}

/// Whatever is configured, polls are some time apart, and a failed one is never followed by a
/// longer wait than one that succeeded, nor by a longer one than the backoff.
pub proof fn waits_are_bounded(value: Option<Seq<char>>, succeeded: bool)
    ensures
        ({
            let interval = interval_of(value);
            &&& 0 < wait_after(succeeded, interval) <= interval
            &&& wait_after(true, interval) == interval
            &&& wait_after(false, interval) <= RETRY_SECS
        }),
{
}

/// What a setting is: what the environment holds under its name, if that is not empty, else what the
/// file holds there, if that is not empty, and else nothing.
pub proof fn a_setting_is_the_first_that_is_not_empty(
    env: Map<Seq<char>, Seq<char>>,
    file: Map<Seq<char>, Seq<char>>,
    name: Seq<char>,
)
    ensures
        ({
            let in_env = env.contains_key(name) && env[name] != Seq::<char>::empty();
            let in_file = file.contains_key(name) && file[name] != Seq::<char>::empty();
            &&& in_env ==> setting(env, file, name) == Some(env[name])
            &&& !in_env && in_file ==> setting(env, file, name) == Some(file[name])
            &&& !in_env && !in_file ==> setting(env, file, name) is None
        }),
{
    if env[name].len() == 0 {
        assert(env[name] =~= Seq::empty());
    }
    if file[name].len() == 0 {
        assert(file[name] =~= Seq::empty());
    }
}

/// The digits of a number stand for it, each by its place.
proof fn lemma_digits_value(digits: Seq<char>)
    requires
        all_digits(digits),
    ensures
        digits_value(digits) == value_of(digits),
    decreases digits.len(),
{
    if digits.len() > 0 {
        let (rest, c) = (digits.drop_last(), digits[digits.len() - 1]);
        assert forall|i: int| 0 <= i < rest.len() implies '0' <= #[trigger] rest[i] <= '9' by {
            assert(rest[i] == digits[i]);
        }
        lemma_digits_value(rest);
        assert(digits =~= rest.push(c));
        a_digit_more_counts_tenfold(rest, c);
    }
}

/// A text reads as a number exactly if it is digits, at least one, with or without a plus sign before
/// them, and what they stand for by their places fits; that is the number.
pub proof fn numbers_are_read_by_the_places_of_their_digits(s: Seq<char>)
    ensures
        ({
            let digits = if s.len() > 0 && s[0] == '+' {
                s.skip(1)
            } else {
                s
            };
            let reads = digits.len() > 0 && all_digits(digits) && value_of(digits) <= u64::MAX;
            &&& number(s) is Some <==> reads
            &&& reads ==> number(s)->0 == value_of(digits)
        }),
{
    let digits = digits_of(s);
    assert(s.len() > 0 ==> s.skip(1) =~= s.drop_first());
    if all_digits(digits) {
        lemma_digits_value(digits);
        assert forall|i: int| 0 <= i < digits.len() implies is_digit(#[trigger] digits[i]) by {
            assert('0' <= digits[i] <= '9');
        }
    } else {
        let i = choose|i: int| 0 <= i < digits.len() && !('0' <= #[trigger] digits[i] <= '9');
        assert(!is_digit(digits[i]));
    }
}

/// Where a positive number is set, polls are that many seconds apart; and 600 where none is set, where
/// it is zero, or where what is set is no number.
pub proof fn polls_are_as_far_apart_as_set(value: Option<Seq<char>>, n: u64)
    ensures
        interval_of(None) == 600,
        value matches Some(s) ==> {
            &&& is_numeral(s, n as nat) && n > 0 ==> interval_of(value) == n
            &&& number(s) matches Some(set) ==> set > 0 ==> interval_of(value) == set
            &&& number(s) is None || number(s) == Some(0u64) ==> interval_of(value) == 600
        },
{
    if let Some(s) = value {
        numbers_are_read_by_the_places_of_their_digits(s);
        if is_numeral(s, n as nat) {
            assert('0' <= s[0] <= '9');
        }
    }
}

/// The state is kept where it is said to be; else in a file of the watcher's own, below the state
/// directory where there is one, else below that of the home directory, else below the current one.
pub proof fn the_state_has_its_place(
    state_path: Option<Seq<char>>,
    state_home: Option<Seq<char>>,
    home: Option<Seq<char>>,
)
    ensures
        ({
            let (base, segments) = state_path_of(state_path, state_home, home);
            &&& state_path matches Some(path) ==> base == path && segments.len() == 0
            &&& state_path is None ==> {
                &&& segments.len() > 0
                &&& segments[segments.len() - 1] == "codex-limits-telegram/state.json"@
                &&& state_home matches Some(directory) ==> base == directory && segments.len() == 1
                &&& state_home is None ==> {
                    &&& home matches Some(directory) ==> base == directory && segments.len() == 2
                        && segments[0] == ".local/state"@
                    &&& home is None ==> base == "."@ && segments.len() == 1
                }
            }
        }),
{
}

/// After a poll that succeeded the whole interval passes; after one that failed a minute, or the
/// interval where that is shorter.
pub proof fn a_failed_poll_waits_a_minute_at_most(interval: u64)
    ensures
        wait_after(true, interval) == interval,
        interval <= 60 ==> wait_after(false, interval) == interval,
        interval >= 60 ==> wait_after(false, interval) == 60,
{
}

/// Whether this is the value that a variable is given: by the environment, or by the file where the
/// environment gives none that is not empty.
pub open spec fn first_given(
    env: Map<Seq<char>, Seq<char>>,
    file: Map<Seq<char>, Seq<char>>,
    name: Seq<char>,
    value: Seq<char>,
) -> bool {
    &&& value.len() > 0
    &&& env.contains_pair(name, value) || (file.contains_pair(name, value) && !(env.contains_key(
        name,
    ) && env[name].len() > 0))
}

/// Whether the environment or the file gives a variable a value that is not empty.
pub open spec fn is_given(
    env: Map<Seq<char>, Seq<char>>,
    file: Map<Seq<char>, Seq<char>>,
    name: Seq<char>,
) -> bool {
    (env.contains_key(name) && env[name].len() > 0) || (file.contains_key(name) && file[name].len()
        > 0)
}

/// The watcher is configured exactly if a token and a chat are given, and says which of them is
/// missing where not. Each of its settings comes from the variable that is meant for it: what that
/// gives is taken over, and where it gives nothing, the program is `codex` and polls are ten minutes
/// apart.
pub proof fn each_setting_comes_from_its_variable(
    env: Map<Seq<char>, Seq<char>>,
    file: Map<Seq<char>, Seq<char>>,
    value: Seq<char>,
)
    ensures
        ({
            let given = |name: Seq<char>, v: Seq<char>| first_given(env, file, name, v);
            let given_any = |name: Seq<char>| is_given(env, file, name);
            let read = configured(env, file);
            &&& read is Ok <==> given_any("TELEGRAM_BOT_TOKEN"@) && given_any("TELEGRAM_CHAT_ID"@)
            &&& !given_any("TELEGRAM_BOT_TOKEN"@) ==> read == Err::<ConfigView, Seq<char>>(
                "TELEGRAM_BOT_TOKEN is not set (checked environment and ./.env)"@,
            )
            &&& given_any("TELEGRAM_BOT_TOKEN"@) && !given_any("TELEGRAM_CHAT_ID"@) ==> read == Err::<
                ConfigView,
                Seq<char>,
            >("TELEGRAM_CHAT_ID is not set (checked environment and ./.env)"@)
            &&& read matches Ok(config) ==> {
                &&& given("TELEGRAM_BOT_TOKEN"@, value) ==> config.token == value
                &&& given("TELEGRAM_CHAT_ID"@, value) ==> config.chat_id == value
                &&& given("CODEX_BIN"@, value) ==> config.codex_bin == value
                &&& !given_any("CODEX_BIN"@) ==> config.codex_bin == "codex"@
                &&& given("STATE_PATH"@, value) ==> config.state_path.0 == value
                    && config.state_path.1.len() == 0
                &&& !given_any("STATE_PATH"@) ==> {
                    let (base, segments) = config.state_path;
                    &&& segments.len() > 0
                    &&& segments[segments.len() - 1] == "codex-limits-telegram/state.json"@
                    &&& given("XDG_STATE_HOME"@, value) ==> base == value && segments.len() == 1
                    &&& !given_any("XDG_STATE_HOME"@) && given("HOME"@, value) ==> base == value
                        && segments.len() == 2 && segments[0] == ".local/state"@
                    &&& !given_any("XDG_STATE_HOME"@) && !given_any("HOME"@) ==> base == "."@ && segments.len()
                        == 1
                }
                &&& given("POLL_INTERVAL_SECS"@, value) ==> {
                    &&& number(value) matches Some(n) ==> n > 0 ==> config.interval == n
                    &&& number(value) is None || number(value) == Some(0u64) ==> config.interval
                        == 600
                }
                &&& !given_any("POLL_INTERVAL_SECS"@) ==> config.interval == 600
            }
        }),
{
}

/// The time is the one that the clock gives, up to the year in which it no longer fits; from then on
/// it has the same 64 bits. A clock before the epoch gives the epoch.
pub proof fn the_time_is_that_of_the_clock(since_epoch: Option<u64>)
    ensures
        since_epoch is None ==> clock_time(since_epoch) == 0,
        since_epoch matches Some(secs) ==> {
            &&& i64::MIN <= clock_time(since_epoch) <= i64::MAX
            &&& secs <= i64::MAX ==> clock_time(since_epoch) == secs
            &&& (secs - clock_time(since_epoch)) % 0x1_0000_0000_0000_0000 == 0
        },
{
}

} // verus!
