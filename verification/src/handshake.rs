//! The exchange with the app-server: what to send, and what to make of each line it answers.
use crate::json::{
    as_integer, content, copy_of, empty_object, integer_value, member, null_value, parse, parsed,
    render, rendered, set_member, text_value, Json,
};
use crate::text::{is_signed_numeral, push_signed_decimal, signed_decimal, signs_are_written};
use serde_json::Value;
use vstd::prelude::*;
use vstd::string::StringExecFns;

verus! {

/// What the client says of itself.
pub open spec fn client_info(version: Seq<char>) -> Json {
    Json::Object(
        Map::empty().insert("name"@, Json::Text("codex-limits-telegram"@)).insert(
            "title"@,
            Json::Text("codex-limits-telegram"@),
        ).insert("version"@, Json::Text(version)),
    )
}

/// A message of the protocol, with an id where it asks for a response.
pub open spec fn message(id: Option<int>, method: Seq<char>, params: Json) -> Json {
    let head = Map::empty().insert("jsonrpc"@, Json::Text("2.0"@)).insert(
        "method"@,
        Json::Text(method),
    ).insert("params"@, params);
    match id {
        Some(id) => Json::Object(head.insert("id"@, Json::Integer(id))),
        None => Json::Object(head),
    }
}

/// The message that opens the exchange.
pub open spec fn opening(version: Seq<char>) -> Json {
    message(
        Some(0),
        "initialize"@,
        Json::Object(Map::empty().insert("clientInfo"@, client_info(version))),
    )
}

/// A message of the protocol, with an id where it asks for a response.
fn message_value(id: Option<i64>, method: &str, params: Value) -> (r: Value)
    ensures
        content(r) == message(
            match id {
                Some(id) => Some(id as int),
                None => None,
            },
            method@,
            content(params),
        ),
{
    let mut object: Value = empty_object();
    set_member(&mut object, "jsonrpc", text_value("2.0"));
    set_member(&mut object, "method", text_value(method));
    set_member(&mut object, "params", params);
    match id {
        Some(id) => {
            set_member(&mut object, "id", integer_value(id));
        },
        None => {},
    }
    object
}

/// The request that opens the exchange, with id 0.
pub fn initialize_request(version: &str) -> (r: Value)
    ensures
        content(r) == message(
            Some(0),
            "initialize"@,
            Json::Object(Map::empty().insert("clientInfo"@, client_info(version@))),
        ),
        content(r) == opening(version@),
{
    let mut info: Value = empty_object();
    set_member(&mut info, "name", text_value("codex-limits-telegram"));
    set_member(&mut info, "title", text_value("codex-limits-telegram"));
    set_member(&mut info, "version", text_value(version));
    let mut params: Value = empty_object();
    set_member(&mut params, "clientInfo", info);
    message_value(Some(0), "initialize", params)
}

/// The notification that follows the server's first response.
pub fn initialized_notification() -> (r: Value)
    ensures
        content(r) == message(None, "initialized"@, Json::Object(Map::empty())),
{
    message_value(None, "initialized", empty_object())
}

/// The request for the rate limits, with id 1.
pub fn rate_limits_request() -> (r: Value)
    ensures
        content(r) == message(Some(1), "account/rateLimits/read"@, Json::Null),
{
    message_value(Some(1), "account/rateLimits/read", null_value())
}

/// The line that carries a message.
pub fn line_of(message: &Value) -> (r: String)
    ensures
        r@ == rendered(content(*message)),
{
    render(message)
}

/// What a line from the server means to one who awaits a response.
#[derive(Debug)]
pub enum Reply {
    /// Not the awaited response: stray output, a notification, or someone else's reply.
    Ignored,
    /// The response reports an error, or has no result.
    Failed(String),
    /// The result that the response carries.
    Answered(Value),
}

/// What a reply says.
pub enum ReplyView {
    Ignored,
    Failed(Seq<char>),
    Answered(Json),
}

impl View for Reply {
    type V = ReplyView;

    open spec fn view(&self) -> ReplyView {
        match self {
            Reply::Ignored => ReplyView::Ignored,
            Reply::Failed(e) => ReplyView::Failed(e@),
            Reply::Answered(result) => ReplyView::Answered(content(*result)),
        }
    }
}

/// The id that a message carries.
pub open spec fn id_of(message: Json) -> Option<i64> {
    match message.member("id"@) {
        Some(id) => id.integer(),
        None => None,
    }
}

/// Whether a line is the response with the given id.
pub open spec fn answers(line: Seq<char>, id: i64) -> bool {
    parsed(line) matches Some(message) && id_of(message) == Some(id)
}

/// What a line means to one who awaits the response with the given id.
pub open spec fn reply(line: Seq<char>, id: i64) -> ReplyView {
    if !answers(line, id) {
        ReplyView::Ignored
    } else {
        let message = parsed(line)->0;
        match message.member("error"@) {
            Some(error) => ReplyView::Failed(error_text(id, rendered(error))),
            None => match message.member("result"@) {
                Some(result) => ReplyView::Answered(result),
                None => ReplyView::Failed(no_result_text(id)),
            },
        }
    }
}

/// How an error that the server reports is told.
pub open spec fn error_text(id: i64, error: Seq<char>) -> Seq<char> {
    "app-server error on request "@ + signed_decimal(id as int) + ": "@ + error
}

/// How a response without a result is told.
pub open spec fn no_result_text(id: i64) -> Seq<char> {
    "response "@ + signed_decimal(id as int) + " had no result"@
}

/// How a response that does not come is told.
pub open spec fn timeout_text(id: i64) -> Seq<char> {
    "timed out waiting for response to request "@ + signed_decimal(id as int)
}

/// What becomes of a message, by what it holds.
#[derive(Debug)]
pub enum Verdict {
    Ignore,
    Fail(String),
    Accept,
}

/// Decides on a message by its id, the text of its error member and whether it has a result.
pub fn judge(id_seen: Option<i64>, error: Option<String>, has_result: bool, id: i64) -> (r: Verdict)
    ensures
        id_seen != Some(id) ==> r is Ignore,
        id_seen == Some(id) ==> match error {
            Some(error) => r matches Verdict::Fail(e) && e@ == error_text(id, error@),
            None => if has_result {
                r is Accept
            } else {
                r matches Verdict::Fail(e) && e@ == no_result_text(id)
            },
        },
{
    let ours: bool = match id_seen {
        Some(seen) => seen == id,
        None => false,
    };
    if !ours {
        return Verdict::Ignore;
    }
    match error {
        Some(error) => {
            let mut e: String = "app-server error on request ".to_string();
            push_signed_decimal(&mut e, id);
            e.append(": ");
            e.append(error.as_str());
            Verdict::Fail(e)
        },
        None => {
            if has_result {
                Verdict::Accept
            } else {
                let mut e: String = "response ".to_string();
                push_signed_decimal(&mut e, id);
                e.append(" had no result");
                Verdict::Fail(e)
            }
        },
    }
}

/// Reads one line from the server while the response with the given id is awaited, ignoring
/// interleaved notifications.
pub fn await_response(line: &str, id: i64) -> (r: Reply)
    ensures
        r@ == reply(line@, id),
{
    let message: Value = match parse(line) {
        Some(message) => message,
        None => return Reply::Ignored,
    };
    let id_seen: Option<i64> = match member(&message, "id") {
        Some(id_member) => as_integer(id_member),
        None => None,
    };
    let error: Option<String> = match member(&message, "error") {
        Some(error) => Some(render(error)),
        None => None,
    };
    let result: Option<&Value> = member(&message, "result");
    match judge(id_seen, error, result.is_some(), id) {
        Verdict::Ignore => Reply::Ignored,
        Verdict::Fail(e) => Reply::Failed(e),
        Verdict::Accept => match result {
            Some(result) => Reply::Answered(copy_of(result)),
            None => Reply::Ignored,
        },
    }
}

/// How far the exchange has come.
#[derive(Clone, Copy, PartialEq, Eq, Structural, Debug)]
pub enum Phase {
    /// The opening request was sent, and its response is awaited.
    Initializing,
    /// The rate limits were asked for, and the response is awaited.
    Reading,
}

impl Phase {
    /// The id of the response that is awaited.
    pub open spec fn awaited(self) -> i64 {
        match self {
            Phase::Initializing => 0,
            Phase::Reading => 1,
        }
    }
}

/// What to do after a line from the server.
#[derive(Debug)]
pub enum Step {
    /// Wait for the next line.
    Wait,
    /// Send these two messages in turn, and wait for the next line.
    Send(Value, Value),
    /// The exchange has failed.
    Failed(String),
    /// The exchange is complete, with this result.
    Done(Value),
}

/// What a step says.
pub enum StepView {
    Wait,
    Send(Json, Json),
    Failed(Seq<char>),
    Done(Json),
}

impl View for Step {
    type V = StepView;

    open spec fn view(&self) -> StepView {
        match self {
            Step::Wait => StepView::Wait,
            Step::Send(first, second) => StepView::Send(content(*first), content(*second)),
            Step::Failed(e) => StepView::Failed(e@),
            Step::Done(result) => StepView::Done(content(*result)),
        }
    }
}

/// What to do after a line that arrives in the given phase.
pub open spec fn step(phase: Phase, line: Seq<char>) -> StepView {
    match reply(line, phase.awaited()) {
        ReplyView::Ignored => StepView::Wait,
        ReplyView::Failed(e) => StepView::Failed(e),
        ReplyView::Answered(result) => match phase {
            Phase::Initializing => StepView::Send(
                message(None, "initialized"@, Json::Object(Map::empty())),
                message(Some(1), "account/rateLimits/read"@, Json::Null),
            ),
            Phase::Reading => StepView::Done(result),
        },
    }
}

/// The phase after a line that arrives in the given phase.
pub open spec fn phase_after(phase: Phase, line: Seq<char>) -> Phase {
    if step(phase, line) is Send {
        Phase::Reading
    } else {
        phase
    }
}

/// One exchange with an app-server.
#[derive(Debug)]
pub struct Handshake {
    pub phase: Phase,
}

impl Handshake {
    /// Opens an exchange, with the request to send first.
    pub fn start(version: &str) -> (r: (Handshake, Value))
        ensures
            r.0.phase == Phase::Initializing,
            content(r.1) == message(
                Some(0),
                "initialize"@,
                Json::Object(Map::empty().insert("clientInfo"@, client_info(version@))),
            ),
            content(r.1) == opening(version@),
    {
        (Handshake { phase: Phase::Initializing }, initialize_request(version))
    }

    /// The id of the response that is awaited.
    fn awaited(&self) -> (r: i64)
        ensures
            r == self.phase.awaited(),
    {
        match self.phase {
            Phase::Initializing => 0,
            Phase::Reading => 1,
        }
    }

    /// Takes the next line from the server.
    pub fn receive(&mut self, line: &str) -> (r: Step)
        ensures
            r@ == step(old(self).phase, line@),
            final(self).phase == phase_after(old(self).phase, line@),
    {
        match await_response(line, self.awaited()) {
            Reply::Ignored => Step::Wait,
            Reply::Failed(e) => Step::Failed(e),
            Reply::Answered(result) => match self.phase {
                Phase::Initializing => {
                    self.phase = Phase::Reading;
                    Step::Send(initialized_notification(), rate_limits_request())
                },
                Phase::Reading => Step::Done(result),
            },
        }
    }

    /// The error of a server that stays silent for too long.
    pub fn timed_out(&self) -> (r: String)
        ensures
            r@ == timeout_text(self.phase.awaited()),
    {
        let mut e: String = "timed out waiting for response to request ".to_string();
        push_signed_decimal(&mut e, self.awaited());
        e
    }
}

/// How an exchange stands after the lines that have arrived.
pub enum Standing {
    Awaiting(Phase),
    Failed(Seq<char>),
    Done(Json),
}

/// How an exchange stands that was in the given phase before the lines arrived.
pub open spec fn standing(phase: Phase, lines: Seq<Seq<char>>) -> Standing
    decreases lines.len(),
{
    if lines.len() == 0 {
        Standing::Awaiting(phase)
    } else {
        match step(phase, lines[0]) {
            StepView::Failed(e) => Standing::Failed(e),
            StepView::Done(result) => Standing::Done(result),
            _ => standing(phase_after(phase, lines[0]), lines.drop_first()),
        }
    }
}

/// A line that answers neither request, wherever it comes in, leaves the outcome of the exchange
/// as it would be without it.
pub proof fn stray_lines_change_nothing(
    phase: Phase,
    before: Seq<Seq<char>>,
    stray: Seq<char>,
    after: Seq<Seq<char>>,
)
    requires
        !answers(stray, 0),
        !answers(stray, 1),
    ensures
        standing(phase, before.push(stray) + after) == standing(phase, before + after),
    decreases before.len(),
{
    let with = before.push(stray) + after;
    let without = before + after;
    if before.len() == 0 {
        assert(with[0] == stray);
        assert(with.drop_first() =~= without);
    } else {
        assert(with[0] == before[0] && without[0] == before[0]);
        let rest = before.drop_first();
        assert(with.drop_first() =~= rest.push(stray) + after);
        assert(without.drop_first() =~= rest + after);
        stray_lines_change_nothing(phase_after(phase, before[0]), rest, stray, after);
    }
}

/// The result of the request for the rate limits is the result of the exchange, once both
/// requests have been answered; and an error in either response ends the exchange with it.
pub proof fn answers_decide_the_exchange(first: Seq<char>, second: Seq<char>)
    requires
        answers(first, 0),
    ensures
        match reply(first, 0) {
            ReplyView::Failed(e) => standing(Phase::Initializing, seq![first])
                == Standing::Failed(e),
            _ => match reply(second, 1) {
                ReplyView::Ignored => standing(Phase::Initializing, seq![first, second])
                    == Standing::Awaiting(Phase::Reading),
                ReplyView::Failed(e) => standing(Phase::Initializing, seq![first, second])
                    == Standing::Failed(e),
                ReplyView::Answered(result) => standing(Phase::Initializing, seq![first, second])
                    == Standing::Done(result),
            },
        },
{
    reveal_with_fuel(standing, 3);
    assert(seq![first].drop_first() =~= Seq::empty());
    assert(seq![first, second].drop_first() =~= seq![second]);
    assert(seq![second].drop_first() =~= Seq::empty());
}

/// Whether a line is a JSON object with these members.
pub open spec fn is_object(line: Seq<char>, members: Map<Seq<char>, Json>) -> bool {
    parsed(line) == Some(Json::Object(members))
}

/// A line that carries the awaited id, no error and a result is answered with that result, whole and
/// as it came, whatever the result itself holds and whatever else the line holds.
pub proof fn the_result_is_answered_whole(
    line: Seq<char>,
    members: Map<Seq<char>, Json>,
    id: i64,
    result: Json,
)
    requires
        is_object(line, members),
        members.contains_pair("id"@, Json::Integer(id as int)),
        !members.contains_key("error"@),
        members.contains_pair("result"@, result),
    ensures
        reply(line, id) == ReplyView::Answered(result),
        id == 0 ==> step(Phase::Initializing, line) is Send && phase_after(
            Phase::Initializing,
            line,
        ) == Phase::Reading,
        id == 1 ==> step(Phase::Reading, line) == StepView::Done(result) && phase_after(
            Phase::Reading,
            line,
        ) == Phase::Reading,
{
}

/// Only the result member of a line is ever answered, and only that of a line with the awaited id:
/// what is answered came as the result of such a line, and without an error.
pub proof fn nothing_but_the_result_is_answered(line: Seq<char>, id: i64, result: Json)
    requires
        reply(line, id) == ReplyView::Answered(result),
    ensures
        exists|members: Map<Seq<char>, Json>| #[trigger]
            is_object(line, members) && members.contains_pair("id"@, Json::Integer(id as int))
                && !members.contains_key("error"@) && members.contains_pair("result"@, result),
{
    let members = parsed(line)->0->Object_0;
    assert(is_object(line, members));
}

/// A line that carries the awaited id and an error fails the exchange, whether it has a result or
/// not, with the number of the request and the error as JSON.
pub proof fn an_error_fails_the_exchange(
    line: Seq<char>,
    members: Map<Seq<char>, Json>,
    id: i64,
    error: Json,
) -> (number: Seq<char>)
    requires
        is_object(line, members),
        members.contains_pair("id"@, Json::Integer(id as int)),
        members.contains_pair("error"@, error),
    ensures
        is_signed_numeral(number, id as int),
        reply(line, id) == ReplyView::Failed(
            "app-server error on request "@ + number + ": "@ + rendered(error),
        ),
        id == 0 ==> step(Phase::Initializing, line) == StepView::Failed(
            "app-server error on request "@ + number + ": "@ + rendered(error),
        ),
        id == 1 ==> step(Phase::Reading, line) == StepView::Failed(
            "app-server error on request "@ + number + ": "@ + rendered(error),
        ),
{
    signs_are_written(id as int);
    signed_decimal(id as int)
}

/// A line that carries the awaited id and neither an error nor a result fails the exchange, with the
/// number of the request.
pub proof fn a_missing_result_fails_the_exchange(
    line: Seq<char>,
    members: Map<Seq<char>, Json>,
    id: i64,
) -> (number: Seq<char>)
    requires
        is_object(line, members),
        members.contains_pair("id"@, Json::Integer(id as int)),
        !members.contains_key("error"@),
        !members.contains_key("result"@),
    ensures
        is_signed_numeral(number, id as int),
        reply(line, id) == ReplyView::Failed("response "@ + number + " had no result"@),
        id == 0 ==> step(Phase::Initializing, line) == StepView::Failed(
            "response "@ + number + " had no result"@,
        ),
        id == 1 ==> step(Phase::Reading, line) == StepView::Failed(
            "response "@ + number + " had no result"@,
        ),
{
    signs_are_written(id as int);
    signed_decimal(id as int)
}

/// Every other line is passed over: what is not JSON, no object, has no id, or has another one.
pub proof fn other_lines_are_passed_over(line: Seq<char>, id: i64)
    requires
        !exists|members: Map<Seq<char>, Json>| #[trigger]
            is_object(line, members) && members.contains_pair("id"@, Json::Integer(id as int)),
    ensures
        reply(line, id) == ReplyView::Ignored,
        id == 0 ==> step(Phase::Initializing, line) == StepView::Wait && phase_after(
            Phase::Initializing,
            line,
        ) == Phase::Initializing,
        id == 1 ==> step(Phase::Reading, line) == StepView::Wait && phase_after(
            Phase::Reading,
            line,
        ) == Phase::Reading,
{
    if answers(line, id) {
        let members = parsed(line)->0->Object_0;
        assert(is_object(line, members) && members.contains_pair("id"@, Json::Integer(id as int)));
    }
}

/// The names of the members that messages have differ.
proof fn lemma_names_differ()
    ensures
        "jsonrpc"@ != "method"@,
        "jsonrpc"@ != "params"@,
        "jsonrpc"@ != "id"@,
        "method"@ != "params"@,
        "method"@ != "id"@,
        "params"@ != "id"@,
        "name"@ != "title"@,
        "name"@ != "version"@,
        "title"@ != "version"@,
{
    reveal_strlit("jsonrpc");
    reveal_strlit("method");
    reveal_strlit("params");
    reveal_strlit("id");
    reveal_strlit("name");
    reveal_strlit("title");
    reveal_strlit("version");
    assert("jsonrpc"@.len() == 7 && "id"@.len() == 2 && "params"@.len() == 6);
    assert("method"@[0] != "params"@[0]);
    assert("name"@[0] != "title"@[0]);
}

/// Whether a value is an object with exactly these members.
pub open spec fn has_exactly(value: Json, members: Set<Seq<char>>) -> bool {
    value matches Json::Object(held) && held.dom() == members
}

/// Each message carries the protocol's version, its method and its parameters; a request has its id
/// besides, and a notification has none.
pub proof fn messages_say_what_they_are(id: Option<int>, method: Seq<char>, params: Json)
    ensures
        ({
            let said = message(id, method, params);
            &&& said.member("jsonrpc"@) == Some(Json::Text("2.0"@))
            &&& said.member("method"@) == Some(Json::Text(method))
            &&& said.member("params"@) == Some(params)
            &&& id matches Some(n) ==> {
                &&& said.member("id"@) == Some(Json::Integer(n))
                &&& has_exactly(said, set!["jsonrpc"@, "method"@, "params"@, "id"@])
            }
            &&& id is None ==> has_exactly(said, set!["jsonrpc"@, "method"@, "params"@])
        }),
{
    lemma_names_differ();
    let held = message(id, method, params)->Object_0;
    if id is Some {
        assert(held.dom() =~= set!["jsonrpc"@, "method"@, "params"@, "id"@]);
    } else {
        assert(held.dom() =~= set!["jsonrpc"@, "method"@, "params"@]);
    }
}

/// The client gives its name, its title and its version.
pub proof fn the_client_introduces_itself(version: Seq<char>)
    ensures
        ({
            let info = client_info(version);
            &&& info.member("name"@) == Some(Json::Text("codex-limits-telegram"@))
            &&& info.member("title"@) == Some(Json::Text("codex-limits-telegram"@))
            &&& info.member("version"@) == Some(Json::Text(version))
            &&& has_exactly(info, set!["name"@, "title"@, "version"@])
        }),
{
    lemma_names_differ();
    assert(client_info(version)->Object_0.dom() =~= set!["name"@, "title"@, "version"@]);
}

/// The answer to the opening request is followed by the notification that the client is initialized,
/// and then by the request for the rate limits, with id 1 and no parameters.
pub proof fn the_rate_limits_are_asked_for(line: Seq<char>)
    requires
        step(Phase::Initializing, line) is Send,
    ensures
        step(Phase::Initializing, line) matches StepView::Send(first, second) && {
            &&& first.member("jsonrpc"@) == Some(Json::Text("2.0"@))
            &&& first.member("method"@) == Some(Json::Text("initialized"@))
            &&& first.member("params"@) == Some(Json::Object(Map::empty()))
            &&& has_exactly(first, set!["jsonrpc"@, "method"@, "params"@])
            &&& second.member("jsonrpc"@) == Some(Json::Text("2.0"@))
            &&& second.member("id"@) == Some(Json::Integer(1))
            &&& second.member("method"@) == Some(Json::Text("account/rateLimits/read"@))
            &&& second.member("params"@) == Some(Json::Null)
            &&& has_exactly(second, set!["jsonrpc"@, "method"@, "params"@, "id"@])
        },
{
    messages_say_what_they_are(None, "initialized"@, Json::Object(Map::empty()));
    messages_say_what_they_are(Some(1), "account/rateLimits/read"@, Json::Null);
}

/// A server that stays silent is told by the number of the request that it was to answer: 0 for the
/// first, and 1 for the rate limits.
pub proof fn silence_is_told_by_the_request(phase: Phase) -> (number: Seq<char>)
    ensures
        phase.awaited() == (if phase == Phase::Initializing {
            0int
        } else {
            1int
        }),
        is_signed_numeral(number, phase.awaited() as int),
        timeout_text(phase.awaited()) == "timed out waiting for response to request "@ + number,
{
    signs_are_written(phase.awaited() as int);
    signed_decimal(phase.awaited() as int)
}

/// An exchange goes on from where its lines have brought it, unless it is over: then later lines
/// change nothing.
pub proof fn an_exchange_can_be_followed_in_parts(
    phase: Phase,
    first: Seq<Seq<char>>,
    second: Seq<Seq<char>>,
)
    ensures
        standing(phase, Seq::empty()) == Standing::Awaiting(phase),
        standing(phase, first + second) == (match standing(phase, first) {
            Standing::Awaiting(reached) => standing(reached, second),
            over => over,
        }),
    decreases first.len(),
{
    if first.len() == 0 {
        assert(first + second =~= second);
    } else {
        assert((first + second)[0] == first[0]);
        assert((first + second).drop_first() =~= first.drop_first() + second);
        an_exchange_can_be_followed_in_parts(
            phase_after(phase, first[0]),
            first.drop_first(),
            second,
        );
    }
}

/// The exchange opens with the request to initialize, with id 0, which carries what the client says of
/// itself and nothing else.
pub proof fn the_exchange_opens_with_the_client(version: Seq<char>)
    ensures
        ({
            let first = opening(version);
            &&& first.member("jsonrpc"@) == Some(Json::Text("2.0"@))
            &&& first.member("id"@) == Some(Json::Integer(0))
            &&& first.member("method"@) == Some(Json::Text("initialize"@))
            &&& has_exactly(first, set!["jsonrpc"@, "method"@, "params"@, "id"@])
            &&& first.member("params"@) matches Some(params) && {
                &&& has_exactly(params, set!["clientInfo"@])
                &&& params.member("clientInfo"@) matches Some(info) && {
                    &&& info.member("name"@) == Some(Json::Text("codex-limits-telegram"@))
                    &&& info.member("title"@) == Some(Json::Text("codex-limits-telegram"@))
                    &&& info.member("version"@) == Some(Json::Text(version))
                    &&& has_exactly(info, set!["name"@, "title"@, "version"@])
                }
            }
        }),
{
    let held = Map::empty().insert("clientInfo"@, client_info(version));
    messages_say_what_they_are(Some(0), "initialize"@, Json::Object(held));
    the_client_introduces_itself(version);
    assert(held.dom() =~= set!["clientInfo"@]);
}

/// The views of a reply and of a step show what they carry, as it is.
pub proof fn views_show_what_is_carried(value: Value, other: Value, text: String)
    ensures
        Reply::Ignored@ == ReplyView::Ignored,
        Reply::Failed(text)@ == ReplyView::Failed(text@),
        Reply::Answered(value)@ == ReplyView::Answered(content(value)),
        Step::Wait@ == StepView::Wait,
        Step::Send(value, other)@ == StepView::Send(content(value), content(other)),
        Step::Failed(text)@ == StepView::Failed(text@),
        Step::Done(value)@ == StepView::Done(content(value)),
{
}

} // verus!
