use aura_vault::chat::{
    authorization, chat_url, extract_reply, finish_chat, prepare_chat, select_dialect, ChatBody,
    ChatMessage, ConnectionSettings, Dialect, Transport,
};
use aura_vault::error::Failure;

fn msg(role: &str, content: &str) -> ChatMessage {
    ChatMessage { role: role.to_string(), content: content.to_string() }
}

fn settings(endpoint: &str, key: Option<&str>) -> ConnectionSettings {
    ConnectionSettings {
        endpoint: endpoint.to_string(),
        model: "m1".to_string(),
        max_tokens: 256,
        api_key: key.map(|k| k.to_string()),
    }
}

#[test]
fn local_daemon_endpoint_is_native() {
    assert_eq!(select_dialect("http://localhost:11434"), Dialect::Native);
    assert_eq!(select_dialect("http://my-ollama-box/api"), Dialect::Native);
}

#[test]
fn versioned_endpoint_is_openai_compatible() {
    assert_eq!(select_dialect("https://api.openai.com/v1"), Dialect::OpenAiCompatible);
    assert_eq!(select_dialect("http://localhost:11434/v1"), Dialect::OpenAiCompatible);
    assert_eq!(
        select_dialect("http://localhost:11434/chat/completions"),
        Dialect::OpenAiCompatible
    );
    assert_eq!(select_dialect(""), Dialect::OpenAiCompatible);
}

#[test]
fn choices_reply_is_extracted() {
    let r = extract_reply(r#"{"choices":[{"message":{"content":"hi"}}]}"#);
    assert_eq!(r, Ok("hi".to_string()));
}

#[test]
fn native_reply_is_extracted() {
    assert_eq!(extract_reply(r#"{"response":"hi"}"#), Ok("hi".to_string()));
}

#[test]
fn reply_without_content_is_no_content() {
    assert_eq!(extract_reply("{}"), Err(Failure::NoContent));
    assert_eq!(extract_reply(r#"{"choices":[]}"#), Err(Failure::NoContent));
    assert_eq!(extract_reply(r#"{"response":7}"#), Err(Failure::NoContent));
}

#[test]
fn choices_win_over_response() {
    let body = r#"{"response":"b","choices":[{"message":{"content":"a"}}]}"#;
    assert_eq!(extract_reply(body), Ok("a".to_string()));
    let fallback = r#"{"response":"b","choices":[{"message":{}}]}"#;
    assert_eq!(extract_reply(fallback), Ok("b".to_string()));
}

#[test]
fn unparsable_reply_is_malformed() {
    assert_eq!(extract_reply("not json"), Err(Failure::Malformed));
}

#[test]
fn empty_conversation_is_invalid_input() {
    let s = settings("http://localhost:11434", None);
    assert!(matches!(prepare_chat(&Vec::new(), Some(&s)), Err(Failure::InvalidInput)));
    assert!(matches!(prepare_chat(&Vec::new(), None), Err(Failure::InvalidInput)));
}

#[test]
fn missing_settings_is_unconfigured() {
    assert!(matches!(prepare_chat(&vec![msg("user", "q")], None), Err(Failure::Unconfigured)));
}

#[test]
fn native_request_carries_last_message_only() {
    let s = settings("http://localhost:11434/", Some(""));
    let m = vec![msg("user", "first"), msg("assistant", "x"), msg("user", "last")];
    let q = prepare_chat(&m, Some(&s)).unwrap();
    assert_eq!(q.url, "http://localhost:11434/chat/completions");
    assert_eq!(q.authorization, None);
    match q.body {
        ChatBody::Native { model, prompt } => {
            assert_eq!(model, "m1");
            assert_eq!(prompt, "last");
        }
        _ => panic!("expected the native body"),
    }
}

#[test]
fn openai_request_carries_whole_conversation() {
    let s = settings("https://api.openai.com/v1//", Some("k123"));
    let m = vec![msg("system", "be brief"), msg("user", "q")];
    let q = prepare_chat(&m, Some(&s)).unwrap();
    assert_eq!(q.url, "https://api.openai.com/v1/chat/completions");
    assert_eq!(q.authorization, Some("Bearer k123".to_string()));
    match q.body {
        ChatBody::OpenAiCompatible { model, messages, max_tokens } => {
            assert_eq!(model, "m1");
            assert_eq!(max_tokens, 256);
            assert_eq!(messages.len(), 2);
            assert_eq!(messages[0].role, "system");
            assert_eq!(messages[1].content, "q");
        }
        _ => panic!("expected the OpenAI-compatible body"),
    }
}

#[test]
fn url_and_header_helpers() {
    assert_eq!(chat_url("http://h"), "http://h/chat/completions");
    assert_eq!(chat_url("http://h///"), "http://h/chat/completions");
    assert_eq!(authorization(&Some("k".to_string())), Some("Bearer k".to_string()));
    assert_eq!(authorization(&None), None);
}

#[test]
fn transport_outcomes() {
    assert_eq!(
        finish_chat(Transport::Failed("refused".to_string())),
        Err(Failure::Connection("refused".to_string()))
    );
    assert_eq!(
        finish_chat(Transport::Answered { status: 500, body: "boom".to_string() }),
        Err(Failure::Api { status: 500, body: "boom".to_string() })
    );
    assert_eq!(
        finish_chat(Transport::Answered { status: 200, body: r#"{"response":"ok"}"#.to_string() }),
        Ok("ok".to_string())
    );
    assert_eq!(
        finish_chat(Transport::Answered { status: 299, body: "{}".to_string() }),
        Err(Failure::NoContent)
    );
}

#[test]
fn unreadable_bodies() {
    assert_eq!(
        finish_chat(Transport::Unread { status: 502, cause: "reset".to_string() }),
        Err(Failure::Api { status: 502, body: String::new() })
    );
    assert_eq!(
        finish_chat(Transport::Unread { status: 200, cause: "reset".to_string() }),
        Err(Failure::Connection("reset".to_string()))
    );
}
