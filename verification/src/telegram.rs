//! What is posted to the Telegram Bot API, and what its answers mean: one method, `sendMessage`.
use crate::json::{
    as_text, bool_value, content, empty_object, member, parse, parsed, set_member, text_value, Json,
};
use crate::text::{decimal, is_numeral, numbers_are_written_as_numerals, push_decimal};
use serde_json::Value;
use vstd::prelude::*;
use vstd::string::StringExecFns;

verus! {

/// A bot, and the chat that it writes to.
pub struct Telegram {
    token: String,
    chat_id: String,
}

/// A post that sends a message.
#[derive(Debug)]
pub struct Post {
    pub url: String,
    pub body: Value,
}

/// How a post came out.
#[derive(Debug)]
pub enum Response {
    /// It was taken.
    Accepted,
    /// It was refused with this status code, and this body.
    Status(u16, String),
    /// It did not get through, for a reason of this kind.
    Transport(String),
}

/// The body of a post that sends the text to the chat.
pub open spec fn message_body(chat_id: Seq<char>, text: Seq<char>) -> Json {
    Json::Object(
        Map::empty().insert("chat_id"@, Json::Text(chat_id)).insert(
            "text"@,
            Json::Text(text),
        ).insert("parse_mode"@, Json::Text("HTML"@)).insert(
            "disable_web_page_preview"@,
            Json::Bool(true),
        ),
    )
}

/// Where a bot with this token posts its messages.
pub open spec fn post_url(token: Seq<char>) -> Seq<char> {
    "https://api.telegram.org/bot"@ + token + "/sendMessage"@
}

/// How a post that was not taken is told; nothing where it was.
pub open spec fn complaint(response: Response) -> Option<Seq<char>> {
    match response {
        Response::Accepted => None,
        Response::Status(code, body) => Some(
            refusal_text(
                code,
                match description(body@) {
                    Some(description) => description,
                    None => body@,
                },
            ),
        ),
        Response::Transport(kind) => Some("telegram request failed: "@ + kind@),
    }
}

/// The description that the body of a refusal gives.
pub open spec fn description(body: Seq<char>) -> Option<Seq<char>> {
    match parsed(body) {
        Some(value) => match value.member("description"@) {
            Some(description) => description.text(),
            None => None,
        },
        None => None,
    }
}

/// How a refusal is told.
pub open spec fn refusal_text(code: u16, detail: Seq<char>) -> Seq<char> {
    "telegram sendMessage returned "@ + decimal(code as nat) + ": "@ + detail
}

impl Telegram {
    /// The token that the bot is known by.
    pub closed spec fn token(self) -> Seq<char> {
        self.token@
    }

    /// The chat that the bot writes to.
    pub closed spec fn chat_id(self) -> Seq<char> {
        self.chat_id@
    }

    /// A bot with this token, which writes to this chat.
    pub fn new(token: String, chat_id: String) -> (r: Self)
        ensures
            r.token() == token@,
            r.chat_id() == chat_id@,
    {
        Telegram { token, chat_id }
    }

    /// The post that sends the text to the chat.
    pub fn send(&self, text: &str) -> (r: Post)
        ensures
            r.url@ == "https://api.telegram.org/bot"@ + self.token() + "/sendMessage"@,
            r.url@ == post_url(self.token()),
            content(r.body) == message_body(self.chat_id(), text@),
    {
        let mut url: String = "https://api.telegram.org/bot".to_string();
        url.append(self.token.as_str());
        url.append("/sendMessage");
        let mut body: Value = empty_object();
        set_member(&mut body, "chat_id", text_value(self.chat_id.as_str()));
        set_member(&mut body, "text", text_value(text));
        set_member(&mut body, "parse_mode", text_value("HTML"));
        set_member(&mut body, "disable_web_page_preview", bool_value(true));
        Post { url, body }
    }
}

/// The description that the body of a refusal gives, if it gives one.
fn described(body: &str) -> (r: Option<String>)
    ensures
        r is Some <==> description(body@) is Some,
        r matches Some(s) ==> description(body@) == Some(s@),
{
    let value: Value = match parse(body) {
        Some(value) => value,
        None => return None,
    };
    match member(&value, "description") {
        Some(found) => match as_text(found) {
            Some(s) => Some(s.to_string()),
            None => None,
        },
        None => None,
    }
}

/// How a refusal is told: by the description that came with it, else by its body.
pub fn refusal(code: u16, body: String, description: Option<String>) -> (r: String)
    ensures
        r@ == refusal_text(
            code,
            match description {
                Some(description) => description@,
                None => body@,
            },
        ),
{
    let mut e: String = "telegram sendMessage returned ".to_string();
    push_decimal(&mut e, code as u64);
    e.append(": ");
    match description {
        Some(description) => {
            e.append(description.as_str());
        },
        None => {
            e.append(body.as_str());
        },
    }
    e
}

/// What the outcome of a post means. The error surfaces Telegram's own description, but never the
/// URL, which carries the bot token: it depends on the response alone.
pub fn outcome(response: Response) -> (r: Result<(), String>)
    ensures
        match response {
            Response::Accepted => r is Ok,
            Response::Status(code, body) => r matches Err(e) && e@ == refusal_text(
                code,
                match description(body@) {
                    Some(description) => description,
                    None => body@,
                },
            ),
            Response::Transport(kind) => r matches Err(e) && e@ == "telegram request failed: "@
                + kind@,
        },
        r is Ok <==> complaint(response) is None,
        r matches Err(e) ==> complaint(response) == Some(e@),
{
    match response {
        Response::Accepted => Ok(()),
        Response::Status(code, body) => {
            let description: Option<String> = described(body.as_str());
            Err(refusal(code, body, description))
        },
        Response::Transport(kind) => {
            let mut e: String = "telegram request failed: ".to_string();
            e.append(kind.as_str());
            Err(e)
        },
    }
}

/// What is posted: the chat, the text as it is, that it is HTML, and that links are not to be
/// previewed; and nothing else.
pub proof fn the_post_carries_the_chat_and_the_text(chat_id: Seq<char>, text: Seq<char>)
    ensures
        message_body(chat_id, text) matches Json::Object(members) && {
            &&& members.contains_pair("chat_id"@, Json::Text(chat_id))
            &&& members.contains_pair("text"@, Json::Text(text))
            &&& members.contains_pair("parse_mode"@, Json::Text("HTML"@))
            &&& members.contains_pair("disable_web_page_preview"@, Json::Bool(true))
            &&& members.dom() == set![
                "chat_id"@,
                "text"@,
                "parse_mode"@,
                "disable_web_page_preview"@,
            ]
        },
{
    reveal_strlit("chat_id");
    reveal_strlit("text");
    reveal_strlit("parse_mode");
    reveal_strlit("disable_web_page_preview");
    assert("chat_id"@.len() == 7 && "text"@.len() == 4 && "parse_mode"@.len() == 10);
    assert("disable_web_page_preview"@.len() == 24);
    assert(message_body(chat_id, text)->Object_0.dom() =~= set![
        "chat_id"@,
        "text"@,
        "parse_mode"@,
        "disable_web_page_preview"@,
    ]);
}

/// A refusal is described by the text that its body holds under that name, where the body is a JSON
/// object that holds one, and else not at all.
pub proof fn a_refusal_is_described_by_its_body(body: Seq<char>, members: Map<Seq<char>, Json>)
    ensures
        parsed(body) is None ==> description(body) is None,
        parsed(body) matches Some(value) ==> value !is Object ==> description(body) is None,
        parsed(body) == Some(Json::Object(members)) ==> {
            let held = members["description"@];
            &&& !members.contains_key("description"@) ==> description(body) is None
            &&& members.contains_key("description"@) ==> {
                &&& held matches Json::Text(said) ==> description(body) == Some(said)
                &&& held !is Text ==> description(body) is None
            }
        },
{
}

/// A refusal is told with its status code, as a decimal numeral, and ends with what is known of it.
pub proof fn a_refusal_is_told_by_its_code(code: u16, detail: Seq<char>) -> (digits: Seq<char>)
    ensures
        is_numeral(digits, code as nat),
        refusal_text(code, detail) == "telegram sendMessage returned "@ + digits + ": "@ + detail,
{
    numbers_are_written_as_numerals(code as nat);
    decimal(code as nat)
}

/// A bot posts to an address that holds its token, between what is the same for all bots and the name
/// of the method; so two bots never share one.
pub proof fn each_bot_posts_to_its_own_address(token: Seq<char>, other: Seq<char>)
    ensures
        ({
            let (url, head, tail) = (
                post_url(token),
                "https://api.telegram.org/bot"@,
                "/sendMessage"@,
            );
            &&& url.len() == head.len() + token.len() + tail.len()
            &&& url.take(head.len() as int) == head
            &&& url.subrange(head.len() as int, (head.len() + token.len()) as int) == token
            &&& url.skip((head.len() + token.len()) as int) == tail
            &&& post_url(other) == url ==> other == token
        }),
{
    let (url, head, tail) = (post_url(token), "https://api.telegram.org/bot"@, "/sendMessage"@);
    assert(url.take(head.len() as int) =~= head);
    assert(url.subrange(head.len() as int, (head.len() + token.len()) as int) =~= token);
    assert(url.skip((head.len() + token.len()) as int) =~= tail);
    if post_url(other) == url {
        assert(other.len() == token.len());
        assert(post_url(other).subrange(head.len() as int, (head.len() + other.len()) as int)
            =~= other);
    }
}

/// A post that was taken gives no error, and any other gives one: a refusal is told by its code and by
/// the description in its body, or the body itself where there is none, and what did not get through
/// by its kind.
pub proof fn a_post_that_was_not_taken_is_told(response: Response) -> (digits: Seq<char>)
    ensures
        complaint(response) is None <==> response is Accepted,
        response matches Response::Status(code, body) ==> {
            let said = description(body@);
            &&& is_numeral(digits, code as nat)
            &&& complaint(response) == Some(
                "telegram sendMessage returned "@ + digits + ": "@ + (if said is Some {
                    said->0
                } else {
                    body@
                }),
            )
        },
        response matches Response::Transport(kind) ==> complaint(response) == Some(
            "telegram request failed: "@ + kind@,
        ),
{
    match response {
        Response::Status(code, body) => {
            let said = description(body@);
            a_refusal_is_told_by_its_code(
                code,
                if said is Some {
                    said->0
                } else {
                    body@
                },
            )
        },
        _ => Seq::empty(),
    }
}

} // verus!
