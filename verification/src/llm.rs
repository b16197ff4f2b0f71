//! The language model: what it is asked, and how its reply is understood.

use vstd::prelude::*;
#[allow(unused_imports)]
use vstd::utf8::{encode_scalar, encode_utf8};
use crate::json::{
    as_text, empty_object, from_items, from_text, item, member, parse, set_member, to_text,
};
use crate::text::{chars_of, concat2, concat4};
#[allow(unused_imports)]
use crate::json::{
    is_plain, item_below, json_document, json_text, json_tree, member_below, member_of, text_below,
    JsonTree,
};
#[allow(unused_imports)]
use crate::number::decimal;

verus! {

/// Where an answer is cut off, in bytes.
pub const MAX_LLM_OUTPUT: usize = 262_144;

// ---------------------------------------------------------------------------
// The configuration

/// What is said when the configuration cannot be read.
pub fn config_unreadable(error: &str) -> (message: String)
    ensures
        message@ == "could not read config.toml: "@ + error@,
{
    concat2("could not read config.toml: ", error)
}

/// What is said when the configuration cannot be understood.
pub fn config_invalid(error: &str) -> (message: String)
    ensures
        message@ == "could not parse config.toml: "@ + error@,
{
    concat2("could not parse config.toml: ", error)
}

// ---------------------------------------------------------------------------
// The request

/// What the model is asked: one message, from the user.
pub open spec fn request_tree(model: Seq<char>, prompt: Seq<char>) -> JsonTree {
    JsonTree::Object(
        map![
            "model"@ => JsonTree::Text(model),
            "messages"@ => JsonTree::List(
                seq![
                    JsonTree::Object(
                        map![
                            "role"@ => JsonTree::Text("user"@),
                            "content"@ => JsonTree::Text(prompt),
                        ],
                    ),
                ],
            ),
        ],
    )
}

/// What the model is asked, as a JSON value.
pub fn request_value(model: &str, prompt: &str) -> (value: serde_json::Value)
    ensures
        json_tree(value) == request_tree(model@, prompt@),
{
    let mut message: serde_json::Value = empty_object();
    set_member(&mut message, "role", from_text("user"));
    set_member(&mut message, "content", from_text(prompt));
    let ghost content = json_tree(message);
    let mut messages: Vec<serde_json::Value> = Vec::new();
    messages.push(message);
    proof {
        assert(messages@.map_values(|item: serde_json::Value| json_tree(item)) =~= seq![content]);
    }
    let mut value: serde_json::Value = empty_object();
    set_member(&mut value, "model", from_text(model));
    set_member(&mut value, "messages", from_items(messages));
    value
}

/// What is asked is nested three deep, and holds no numbers.
proof fn lemma_request_is_plain(model: Seq<char>, prompt: Seq<char>)
    ensures
        is_plain(request_tree(model, prompt), 127),
{
    reveal_with_fuel(is_plain, 4);
}

/// What is sent to the model: the question in JSON, from which it is read back.
pub fn request_body(model: &str, prompt: &str) -> (body: String)
    ensures
        body@ == json_text(request_tree(model@, prompt@)),
        json_document(encode_utf8(body@)) == Some(request_tree(model@, prompt@)),
{
    proof {
        lemma_request_is_plain(model@, prompt@);
    }
    to_text(&request_value(model, prompt))
}

// ---------------------------------------------------------------------------
// The reply

/// How `reqwest::StatusCode` writes a status: its number and its name.
pub uninterp spec fn status_text(code: u16) -> Seq<char>;

/// `reqwest::StatusCode::from_u16`, and its `to_string`: the text depends on
/// the number alone, and starts with the number and a space. Other numbers are
/// no status.
#[verifier::external_body]
fn describe_status(code: u16) -> (text: String)
    requires
        100 <= code <= 999,
    ensures
        text@ == status_text(code),
        (decimal(code as nat) + " "@).is_prefix_of(text@),
{
    reqwest::StatusCode::from_u16(code).unwrap().to_string()
}

/// How many bytes a character takes.
pub open spec fn char_width(c: char) -> int {
    encode_scalar(c as u32).len() as int
}

/// How many characters start no more than `room` bytes behind the first.
pub open spec fn chars_within(s: Seq<char>, room: int) -> int
    decreases s.len(),
{
    if s.len() == 0 || room < 0 {
        0
    } else {
        1 + chars_within(s.drop_first(), room - char_width(s[0]))
    }
}

/// An answer as it is passed on: whole, or cut off behind the last character
/// that starts within the limit.
pub open spec fn clipped(answer: Seq<char>) -> Seq<char> {
    if encode_utf8(answer).len() > MAX_LLM_OUTPUT {
        answer.take(chars_within(answer, MAX_LLM_OUTPUT as int))
    } else {
        answer
    }
}

/// How many bytes a character takes.
fn width_of(c: char) -> (width: usize)
    ensures
        width == char_width(c),
        1 <= width <= 4,
{
    proof {
        vstd::utf8::char_is_scalar(c);
    }
    let n: u32 = c as u32;
    if n <= 0x7f {
        1
    } else if n <= 0x7ff {
        2
    } else if n <= 0xffff {
        3
    } else {
        4
    }
}

/// There are no more characters within a limit than there are.
pub proof fn lemma_chars_within(s: Seq<char>, room: int)
    ensures
        0 <= chars_within(s, room) <= s.len(),
    decreases s.len(),
{
    if s.len() > 0 && room >= 0 {
        lemma_chars_within(s.drop_first(), room - char_width(s[0]));
    }
}

/// An answer as it is passed on.
pub fn clip(answer: &str) -> (kept: String)
    ensures
        kept@ == clipped(answer@),
{
    if answer.as_bytes().len() <= MAX_LLM_OUTPUT {
        return answer.to_owned();
    }
    let chars: Vec<char> = chars_of(answer);
    let mut offset: usize = 0;
    let mut i: usize = 0;
    assert(answer@.skip(0) == answer@);
    while i < chars.len() && offset <= MAX_LLM_OUTPUT
        invariant
            i <= chars.len(),
            chars@ == answer@,
            offset <= MAX_LLM_OUTPUT + 4,
            chars_within(answer@, MAX_LLM_OUTPUT as int) == i + chars_within(
                answer@.skip(i as int),
                MAX_LLM_OUTPUT - offset,
            ),
        decreases chars.len() - i,
    {
        assert(answer@.skip(i as int).drop_first() == answer@.skip(i + 1));
        offset = offset + width_of(chars[i]);
        i = i + 1;
    }
    let kept: &str = answer.substring_char(0, i);
    assert(kept@ == answer@.take(i as int));
    kept.to_owned()
}

/// What is said of a reply that reports an error.
pub open spec fn error_detail(reply: JsonTree) -> Seq<char> {
    match text_below(member_below(member_of(reply, "error"@), "message"@)) {
        Some(detail) => detail,
        None => "unknown API error"@,
    }
}

/// The answer in a reply, if there is one.
pub open spec fn answer_in(reply: JsonTree) -> Option<Seq<char>> {
    text_below(
        member_below(
            member_below(item_below(member_of(reply, "choices"@), 0), "message"@),
            "content"@,
        ),
    )
}

/// Whether a status says that all is well.
pub open spec fn is_success(code: u16) -> bool {
    200 <= code < 300
}

/// What a reply with a status says: an answer, or what went wrong.
pub open spec fn reply_outcome(code: u16, status: Seq<char>, reply: JsonTree) -> Result<
    Seq<char>,
    Seq<char>,
> {
    if !is_success(code) {
        Err("HTTP "@ + status + ": "@ + error_detail(reply))
    } else {
        match answer_in(reply) {
            Some(answer) => Ok(clipped(answer)),
            None => Err("invalid LLM response"@),
        }
    }
}

/// What a reply says whose bytes are those of `body`.
pub open spec fn body_outcome(code: u16, status: Seq<char>, body: Seq<u8>) -> Result<
    Seq<char>,
    Seq<char>,
> {
    match json_document(body) {
        Some(reply) => reply_outcome(code, status, reply),
        None => Err("error decoding response body"@),
    }
}

/// What is said of a reply that reports an error.
fn detail_of<'a>(reply: &'a serde_json::Value) -> (detail: &'a str)
    ensures
        detail@ == error_detail(json_tree(*reply)),
{
    match member(reply, "error") {
        Some(error) => match member(error, "message") {
            Some(message) => match as_text(message) {
                Some(detail) => detail,
                None => "unknown API error",
            },
            None => "unknown API error",
        },
        None => "unknown API error",
    }
}

/// The answer in a reply, if there is one.
fn answer_of<'a>(reply: &'a serde_json::Value) -> (answer: Option<&'a str>)
    ensures
        match answer {
            Some(answer) => answer_in(json_tree(*reply)) == Some(answer@),
            None => answer_in(json_tree(*reply)) is None,
        },
{
    let choices: &serde_json::Value = match member(reply, "choices") {
        Some(choices) => choices,
        None => {
            return None;
        },
    };
    let first: &serde_json::Value = match item(choices, 0) {
        Some(first) => first,
        None => {
            return None;
        },
    };
    let message: &serde_json::Value = match member(first, "message") {
        Some(message) => message,
        None => {
            return None;
        },
    };
    match member(message, "content") {
        Some(content) => as_text(content),
        None => None,
    }
}

/// What a reply says, whose status has this number and this text.
pub fn interpret_reply(code: u16, status: &str, reply: &serde_json::Value) -> (outcome: Result<
    String,
    String,
>)
    ensures
        match outcome {
            Ok(answer) => reply_outcome(code, status@, json_tree(*reply)) == Ok::<
                Seq<char>,
                Seq<char>,
            >(answer@),
            Err(error) => reply_outcome(code, status@, json_tree(*reply)) == Err::<
                Seq<char>,
                Seq<char>,
            >(error@),
        },
{
    if code < 200 || 300 <= code {
        return Err(concat4("HTTP ", status, ": ", detail_of(reply)));
    }
    match answer_of(reply) {
        Some(answer) => Ok(clip(answer)),
        None => Err("invalid LLM response".to_owned()),
    }
}

/// What a reply says, whose status has this number. The text of a status starts
/// with its number.
pub fn read_reply(code: u16, body: &[u8]) -> (outcome: Result<String, String>)
    requires
        100 <= code <= 999,
    ensures
        match outcome {
            Ok(answer) => body_outcome(code, status_text(code), body@) == Ok::<
                Seq<char>,
                Seq<char>,
            >(answer@),
            Err(error) => body_outcome(code, status_text(code), body@) == Err::<
                Seq<char>,
                Seq<char>,
            >(error@),
        },
        json_document(body@) is Some ==> (decimal(code as nat) + " "@).is_prefix_of(
            status_text(code),
        ),
{
    match parse(body) {
        Ok(reply) => {
            let status: String = describe_status(code);
            interpret_reply(code, status.as_str(), &reply)
        },
        Err(_) => Err("error decoding response body".to_owned()),
    }
}

// ---------------------------------------------------------------------------
// Laws

/// The characters that start within a limit take more bytes than the limit
/// where there are others behind them, and at most one character more.
proof fn lemma_bytes_within(s: Seq<char>, room: int)
    requires
        room >= 0,
    ensures
        encode_utf8(s.take(chars_within(s, room))).len() <= room + 4,
        chars_within(s, room) < s.len() ==> encode_utf8(s.take(chars_within(s, room))).len()
            > room,
    decreases s.len(),
{
    lemma_chars_within(s, room);
    if s.len() > 0 {
        let rest = s.drop_first();
        let left = room - char_width(s[0]);
        let n = chars_within(rest, left);
        lemma_chars_within(rest, left);
        vstd::utf8::char_is_scalar(s[0]);
        assert(1 <= char_width(s[0]) <= 4);
        let front = s.take(n + 1);
        assert(front.drop_first() =~= rest.take(n));
        assert(front[0] == s[0]);
        assert(encode_utf8(front).len() == char_width(s[0]) + encode_utf8(rest.take(n)).len());
        if left >= 0 {
            lemma_bytes_within(rest, left);
        } else {
            assert(n == 0);
            assert(rest.take(0) =~= Seq::<char>::empty());
            assert(encode_utf8(rest.take(0)).len() == 0);
        }
    } else {
        assert(s.take(0) =~= Seq::<char>::empty());
    }
}

/// An answer is passed on whole, or from its start: then what is passed on is
/// longer than the limit, but by no more than a character.
pub proof fn law_answer_is_cut_at_the_limit(answer: Seq<char>)
    ensures
        clipped(answer).is_prefix_of(answer),
        encode_utf8(answer).len() <= MAX_LLM_OUTPUT ==> clipped(answer) == answer,
        encode_utf8(clipped(answer)).len() <= MAX_LLM_OUTPUT + 4,
        clipped(answer) != answer ==> encode_utf8(clipped(answer)).len() > MAX_LLM_OUTPUT,
{
    lemma_chars_within(answer, MAX_LLM_OUTPUT as int);
    lemma_bytes_within(answer, MAX_LLM_OUTPUT as int);
    let n = chars_within(answer, MAX_LLM_OUTPUT as int);
    if n == answer.len() {
        assert(answer.take(n) =~= answer);
    }
    assert(clipped(answer).is_prefix_of(answer)) by {
        assert(answer.subrange(0, answer.len() as int) =~= answer);
    }
}

/// The model is asked by name, with one message from the user, which is the
/// whole question.
pub proof fn law_question_is_asked_whole(model: Seq<char>, prompt: Seq<char>)
    ensures
        ({
            let request = request_tree(model, prompt)->Object_0;
            let messages = request["messages"@]->List_0;
            let message = messages[0]->Object_0;
            &&& request_tree(model, prompt) is Object
            &&& request.dom() =~= set!["model"@, "messages"@]
            &&& request["model"@] == JsonTree::Text(model)
            &&& request["messages"@] is List
            &&& messages.len() == 1
            &&& messages[0] is Object
            &&& message.dom() =~= set!["role"@, "content"@]
            &&& message["role"@] == JsonTree::Text("user"@)
            &&& message["content"@] == JsonTree::Text(prompt)
        }),
{
    reveal_strlit("model");
    reveal_strlit("messages");
    reveal_strlit("role");
    reveal_strlit("content");
    assert("model"@.len() != "messages"@.len());
    assert("role"@.len() != "content"@.len());
}

/// What a value holds under a key.
pub open spec fn holds(tree: JsonTree, key: Seq<char>, part: JsonTree) -> bool {
    tree matches JsonTree::Object(members) && members.contains_key(key) && members[key] == part
}

/// Whether a reply has the text of an answer where it belongs: in the message of
/// its first choice.
pub open spec fn has_answer(
    reply: JsonTree,
    choices: Seq<JsonTree>,
    message: JsonTree,
    answer: Seq<char>,
) -> bool {
    &&& holds(reply, "choices"@, JsonTree::List(choices))
    &&& choices.len() > 0
    &&& holds(choices[0], "message"@, message)
    &&& holds(message, "content"@, JsonTree::Text(answer))
}

/// A reply with a status of success is answered by the text in the message of
/// its first choice, whole up to the limit.
pub proof fn law_answer_is_the_first_choice(
    code: u16,
    status: Seq<char>,
    reply: JsonTree,
    choices: Seq<JsonTree>,
    message: JsonTree,
    answer: Seq<char>,
)
    requires
        200 <= code <= 299,
        has_answer(reply, choices, message, answer),
    ensures
        reply_outcome(code, status, reply) == Ok::<Seq<char>, Seq<char>>(clipped(answer)),
        encode_utf8(answer).len() <= 262_144 ==> reply_outcome(code, status, reply) == Ok::<
            Seq<char>,
            Seq<char>,
        >(answer),
{
}

/// Whether a reply has the text of an error where it belongs.
pub open spec fn has_detail(reply: JsonTree, error: JsonTree, detail: Seq<char>) -> bool {
    holds(reply, "error"@, error) && holds(error, "message"@, JsonTree::Text(detail))
}

/// A reply with any other status is an error, which tells the status and the
/// message of the error in the reply; or that there is none.
pub proof fn law_error_of_the_service_is_told(
    code: u16,
    status: Seq<char>,
    reply: JsonTree,
    error: JsonTree,
    detail: Seq<char>,
)
    requires
        code < 200 || 299 < code,
    ensures
        has_detail(reply, error, detail) ==> reply_outcome(code, status, reply) == Err::<
            Seq<char>,
            Seq<char>,
        >("HTTP"@ + " "@ + status + ": "@ + detail),
        (forall|e: JsonTree, d: Seq<char>| !#[trigger] has_detail(reply, e, d)) ==> reply_outcome(
            code,
            status,
            reply,
        ) == Err::<Seq<char>, Seq<char>>(
            "HTTP"@ + " "@ + status + ": "@ + "unknown API error"@,
        ),
{
    reveal_strlit("HTTP");
    reveal_strlit("HTTP ");
    reveal_strlit(" ");
    assert("HTTP "@ =~= "HTTP"@ + " "@);
    if text_below(member_below(member_of(reply, "error"@), "message"@)) is Some {
        let e = reply->Object_0["error"@];
        let d = e->Object_0["message"@]->Text_0;
        assert(has_detail(reply, e, d));
    }
}

/// A reply with a status of success but without the text of an answer where it
/// belongs is an error; so is one that is no JSON, whatever its status.
pub proof fn law_reply_without_an_answer_is_an_error(
    code: u16,
    status: Seq<char>,
    reply: JsonTree,
    body: Seq<u8>,
)
    ensures
        200 <= code <= 299 && reply_outcome(code, status, reply) is Err ==> reply_outcome(
            code,
            status,
            reply,
        ) == Err::<Seq<char>, Seq<char>>("invalid LLM response"@),
        reply_outcome(code, status, reply) is Ok ==> 200 <= code <= 299 && exists|
            choices: Seq<JsonTree>,
            message: JsonTree,
            answer: Seq<char>,
        | #[trigger]
            has_answer(reply, choices, message, answer),
        json_document(body) is None ==> body_outcome(code, status, body) == Err::<
            Seq<char>,
            Seq<char>,
        >("error decoding response body"@),
        json_document(body) == Some(reply) ==> body_outcome(code, status, body) == reply_outcome(
            code,
            status,
            reply,
        ),
{
    if reply_outcome(code, status, reply) is Ok {
        let choices = reply->Object_0["choices"@]->List_0;
        let message = choices[0]->Object_0["message"@];
        let answer = message->Object_0["content"@]->Text_0;
        assert(has_answer(reply, choices, message, answer));
    }
}

/// A long answer is cut off behind the first character with which it has more
/// than 256 KiB, and no other is.
pub proof fn law_long_answer_is_cut_off_once(answer: Seq<char>)
    ensures
        encode_utf8(answer).len() <= 262_144 ==> clipped(answer) == answer,
        encode_utf8(answer).len() > 262_144 ==> {
            &&& clipped(answer).len() > 0
            &&& clipped(answer).is_prefix_of(answer)
            &&& encode_utf8(clipped(answer)).len() > 262_144
            &&& encode_utf8(clipped(answer).drop_last()).len() <= 262_144
        },
{
    law_answer_is_cut_at_the_limit(answer);
    lemma_chars_within(answer, MAX_LLM_OUTPUT as int);
    if encode_utf8(answer).len() > 262_144 {
        lemma_one_less(answer, MAX_LLM_OUTPUT as int);
        let n = chars_within(answer, MAX_LLM_OUTPUT as int);
        assert(answer.take(n).drop_last() =~= answer.take(n - 1));
    }
}

/// Without the last of the characters that start within a limit, the limit is
/// kept.
proof fn lemma_one_less(s: Seq<char>, room: int)
    requires
        room >= 0,
        s.len() > 0,
    ensures
        chars_within(s, room) > 0,
        encode_utf8(s.take(chars_within(s, room) - 1)).len() <= room,
    decreases s.len(),
{
    lemma_chars_within(s, room);
    let rest = s.drop_first();
    let left = room - char_width(s[0]);
    let n = chars_within(rest, left);
    lemma_chars_within(rest, left);
    vstd::utf8::char_is_scalar(s[0]);
    if left >= 0 && rest.len() > 0 {
        lemma_one_less(rest, left);
        let front = s.take(n);
        assert(front.drop_first() =~= rest.take(n - 1));
        assert(front[0] == s[0]);
        assert(encode_utf8(front).len() == char_width(s[0]) + encode_utf8(rest.take(n - 1)).len());
    } else {
        assert(n == 0);
        assert(s.take(0) =~= Seq::<char>::empty());
        assert(encode_utf8(s.take(0)).len() == 0);
    }
}

} // verus!
