use hat::llm::{
    clip, config_invalid, config_unreadable, interpret_reply, read_reply, request_body,
    request_value, MAX_LLM_OUTPUT,
};
use serde_json::Value;

fn reply_with(content: &str) -> String {
    let mut message = serde_json::Map::new();
    message.insert("content".to_owned(), Value::String(content.to_owned()));
    let mut choice = serde_json::Map::new();
    choice.insert("message".to_owned(), Value::Object(message));
    let mut reply = serde_json::Map::new();
    reply.insert("choices".to_owned(), Value::Array(vec![Value::Object(choice)]));
    Value::Object(reply).to_string()
}

#[test]
fn configuration_errors_are_named() {
    assert_eq!(config_unreadable("not found"), "could not read config.toml: not found");
    assert_eq!(config_invalid("expected `=`"), "could not parse config.toml: expected `=`");
}

#[test]
fn request_holds_the_model_and_the_prompt() {
    let value = request_value("gpt", "say \"hi\"");
    assert_eq!(value["model"], Value::String("gpt".to_owned()));
    assert_eq!(value["messages"].as_array().unwrap().len(), 1);
    assert_eq!(value["messages"][0]["role"], Value::String("user".to_owned()));
    assert_eq!(value["messages"][0]["content"], Value::String("say \"hi\"".to_owned()));
    assert_eq!(value.as_object().unwrap().len(), 2);
    assert_eq!(value["messages"][0].as_object().unwrap().len(), 2);
}

#[test]
fn request_is_json() {
    let body = request_body("gpt", "line\nbreak");
    let value: Value = serde_json::from_str(&body).unwrap();
    assert_eq!(value, request_value("gpt", "line\nbreak"));
    assert_eq!(
        body,
        "{\"messages\":[{\"content\":\"line\\nbreak\",\"role\":\"user\"}],\"model\":\"gpt\"}"
    );
}

#[test]
fn answer_is_read() {
    assert_eq!(read_reply(200, reply_with("hello").as_bytes()), Ok("hello".to_owned()));
    assert_eq!(read_reply(299, reply_with("").as_bytes()), Ok(String::new()));
}

#[test]
fn reply_without_an_answer_is_an_error() {
    for body in [
        "{}",
        "null",
        "[]",
        "{\"choices\":[]}",
        "{\"choices\":{}}",
        "{\"choices\":[{}]}",
        "{\"choices\":[{\"message\":{}}]}",
        "{\"choices\":[{\"message\":{\"content\":null}}]}",
        "{\"choices\":[{\"message\":{\"content\":5}}]}",
    ] {
        assert_eq!(
            read_reply(200, body.as_bytes()),
            Err("invalid LLM response".to_owned()),
            "{body}"
        );
    }
}

#[test]
fn error_of_the_service_is_told() {
    assert_eq!(
        read_reply(401, b"{\"error\":{\"message\":\"bad key\"}}"),
        Err("HTTP 401 Unauthorized: bad key".to_owned())
    );
    assert_eq!(
        read_reply(500, b"{\"error\":\"down\"}"),
        Err("HTTP 500 Internal Server Error: unknown API error".to_owned())
    );
    assert_eq!(
        read_reply(199, reply_with("hello").as_bytes()),
        Err("HTTP 199 <unknown status code>: unknown API error".to_owned())
    );
    assert_eq!(
        read_reply(300, b"{}"),
        Err("HTTP 300 Multiple Choices: unknown API error".to_owned())
    );
}

#[test]
fn reply_that_is_not_json_is_an_error() {
    for code in [200, 404] {
        assert_eq!(
            read_reply(code, b"<html>"),
            Err("error decoding response body".to_owned())
        );
    }
}

#[test]
fn reply_is_interpreted_with_its_status() {
    let reply: Value = serde_json::from_str(&reply_with("hi")).unwrap();
    assert_eq!(interpret_reply(200, "200 OK", &reply), Ok("hi".to_owned()));
    assert_eq!(
        interpret_reply(418, "418 teapot", &reply),
        Err("HTTP 418 teapot: unknown API error".to_owned())
    );
}

#[test]
fn long_answer_is_cut_at_the_limit() {
    let whole = "a".repeat(MAX_LLM_OUTPUT);
    assert_eq!(clip(&whole), whole);
    // The character that starts at the limit is the last one.
    let long = "a".repeat(MAX_LLM_OUTPUT + 5);
    assert_eq!(clip(&long).len(), MAX_LLM_OUTPUT + 1);
    let wide = "中".repeat(MAX_LLM_OUTPUT / 3 + 10);
    let kept = clip(&wide);
    assert!(wide.starts_with(&kept));
    assert_eq!(kept.len(), (MAX_LLM_OUTPUT / 3 + 1) * 3);
    assert_eq!(MAX_LLM_OUTPUT, 256 * 1024);
}
