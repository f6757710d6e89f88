//! The chat gateway's logic: which wire dialect an endpoint speaks, the
//! request to send, and the reply or failure that an answer comes to.
use vstd::prelude::*;
use vstd::string::StringExecFns;
use crate::error::Failure;
use crate::tree::opt_text;
use crate::json::{
    elements, json_elements, json_member, json_text, member, parse_json, parsed_json, text_value,
};
use crate::text::{contains_text, has_substring, trim_slashes, without_trailing_slashes};

verus! {

/// One turn of a conversation.
#[derive(Debug, Clone)]
pub struct ChatMessage {
    pub role: String,
    pub content: String,
}

/// A piece of a streamed reply: its kind (`content`, `error` or `done`) and
/// what it carries.
#[derive(Debug, Clone)]
pub struct StreamChunk {
    pub chunk_type: String,
    pub content: Option<String>,
    pub error: Option<String>,
}

/// Where and how to reach the chat backend. The sampling temperature travels
/// beside these settings, from the settings provider straight to the wire.
#[derive(Debug, Clone)]
pub struct ConnectionSettings {
    pub endpoint: String,
    pub model: String,
    pub max_tokens: u32,
    pub api_key: Option<String>,
}

/// The two request and response shapes that backends speak.
#[derive(Debug, Clone, Copy, PartialEq, Eq)]
pub enum Dialect {
    /// `{model, messages, temperature, max_tokens, stream}`.
    OpenAiCompatible,
    /// `{model, prompt, stream}`, as a local serving daemon takes it.
    Native,
}

/// The body of a chat request, apart from the temperature and `stream:false`.
#[derive(Debug, Clone)]
pub enum ChatBody {
    OpenAiCompatible { model: String, messages: Vec<ChatMessage>, max_tokens: u32 },
    Native { model: String, prompt: String },
}

/// A request ready to be posted as JSON.
#[derive(Debug, Clone)]
pub struct ChatRequest {
    pub url: String,
    /// The value of the `Authorization` header, if any.
    pub authorization: Option<String>,
    pub body: ChatBody,
}

/// How the transport ended.
#[derive(Debug, Clone)]
pub enum Transport {
    /// No answer: connection refused, timed out, and the like; carries the
    /// cause.
    Failed(String),
    /// The backend answered with this status and body.
    Answered { status: u16, body: String },
    /// The backend answered with this status, but reading the body failed;
    /// carries the cause.
    Unread { status: u16, cause: String },
}

/// The endpoint names the local daemon's protocol and not an
/// OpenAI-compatible path.
pub open spec fn native_endpoint(e: Seq<char>) -> bool {
    (has_substring(e, "ollama"@) || has_substring(e, "11434"@)) && !has_substring(e, "/v1"@)
        && !has_substring(e, "chat/completions"@)
}

/// The URL that a chat request for `endpoint` is posted to.
pub open spec fn completions_url(endpoint: Seq<char>) -> Seq<char> {
    trim_slashes(endpoint) + "/chat/completions"@
}

/// The `Authorization` header for an API key: none for a missing or empty
/// key.
pub open spec fn authorization_for(key: Option<String>) -> Option<Seq<char>> {
    match key {
        Some(k) => if k@.len() > 0 {
            Some("Bearer "@ + k@)
        } else {
            None
        },
        None => None,
    }
}

/// The views of the messages' roles and contents, in order.
pub open spec fn turns(m: Seq<ChatMessage>) -> Seq<(Seq<char>, Seq<char>)> {
    m.map_values(|c: ChatMessage| (c.role@, c.content@))
}

/// `b` is the body for `messages` and `s` in the dialect of `s.endpoint`.
pub open spec fn body_for(messages: Seq<ChatMessage>, s: ConnectionSettings, b: ChatBody) -> bool {
    if native_endpoint(s.endpoint@) {
        b matches ChatBody::Native { model, prompt } && model@ == s.model@ && prompt@
            == messages.last().content@
    } else {
        b matches ChatBody::OpenAiCompatible { model, messages: m, max_tokens } && model@
            == s.model@ && turns(m@) == turns(messages) && max_tokens == s.max_tokens
    }
}

/// The reply in the OpenAI-compatible shape: `choices[0].message.content`.
pub open spec fn choice_reply(v: serde_json::Value) -> Option<Seq<char>> {
    match json_member(v, "choices"@) {
        Some(c) => match json_elements(c) {
            Some(a) => if a.len() > 0 {
                match json_member(a[0], "message"@) {
                    Some(m) => match json_member(m, "content"@) {
                        Some(t) => json_text(t),
                        None => None,
                    },
                    None => None,
                }
            } else {
                None
            },
            None => None,
        },
        None => None,
    }
}

/// The reply in the native shape: the top-level `response`.
pub open spec fn native_reply(v: serde_json::Value) -> Option<Seq<char>> {
    match json_member(v, "response"@) {
        Some(t) => json_text(t),
        None => None,
    }
}

/// The reply that a parsed answer holds: the OpenAI-compatible shape first,
/// then the native one.
pub open spec fn reply_of(v: serde_json::Value) -> Option<Seq<char>> {
    if choice_reply(v) is Some {
        choice_reply(v)
    } else {
        native_reply(v)
    }
}

/// The dialect that `endpoint` speaks.
pub fn select_dialect(endpoint: &str) -> (r: Dialect)
    ensures
        r == (if native_endpoint(endpoint@) {
            Dialect::Native
        } else {
            Dialect::OpenAiCompatible
        }),
{
    let named = contains_text(endpoint, "ollama") || contains_text(endpoint, "11434");
    if named && !contains_text(endpoint, "/v1") && !contains_text(endpoint, "chat/completions") {
        Dialect::Native
    } else {
        Dialect::OpenAiCompatible
    }
}

/// The URL that chat requests for `endpoint` go to.
pub fn chat_url(endpoint: &str) -> (r: String)
    ensures
        r@ == completions_url(endpoint@),
{
    without_trailing_slashes(endpoint).to_owned().concat("/chat/completions")
}

/// The `Authorization` header for `key`.
pub fn authorization(key: &Option<String>) -> (r: Option<String>)
    ensures
        match r {
            Some(h) => authorization_for(*key) == Some(h@),
            None => authorization_for(*key) is None,
        },
{
    match key {
        Some(k) => if k.as_str().unicode_len() > 0 {
            Some("Bearer ".to_owned().concat(k.as_str()))
        } else {
            None
        },
        None => None,
    }
}

/// Copies a conversation, keeping its order.
fn copy_messages(messages: &Vec<ChatMessage>) -> (r: Vec<ChatMessage>)
    ensures
        turns(r@) == turns(messages@),
{
    let mut out: Vec<ChatMessage> = Vec::new();
    let mut i: usize = 0;
    while i < messages.len()
        invariant
            i <= messages.len(),
            turns(out@) == turns(messages@.take(i as int)),
        decreases messages.len() - i,
    {
        let m = &messages[i];
        out.push(ChatMessage { role: m.role.clone(), content: m.content.clone() });
        assert(turns(messages@.take(i + 1)) =~= turns(messages@.take(i as int)).push(
            (messages@[i as int].role@, messages@[i as int].content@),
        ));
        assert(turns(out@) =~= turns(messages@.take(i + 1)));
        i = i + 1;
    }
    assert(messages@.take(messages.len() as int) =~= messages@);
    out
}

/// The request for one chat turn. An empty conversation fails with
/// `InvalidInput` and missing settings with `Unconfigured`, before anything
/// is sent.
pub fn prepare_chat(messages: &Vec<ChatMessage>, settings: Option<&ConnectionSettings>) -> (r:
    Result<ChatRequest, Failure>)
    ensures
        messages.len() == 0 ==> r == Err::<ChatRequest, Failure>(Failure::InvalidInput),
        messages.len() > 0 && settings is None ==> r == Err::<ChatRequest, Failure>(
            Failure::Unconfigured,
        ),
        messages.len() > 0 && settings is Some ==> (r matches Ok(q) && q.url@ == completions_url(
            settings->0.endpoint@,
        ) && opt_text(q.authorization) == authorization_for(settings->0.api_key) && body_for(
            messages@,
            *settings->0,
            q.body,
        )),
{
    if messages.len() == 0 {
        return Err(Failure::InvalidInput);
    }
    let s = match settings {
        Some(s) => s,
        None => return Err(Failure::Unconfigured),
    };
    let url = chat_url(s.endpoint.as_str());
    let auth = authorization(&s.api_key);
    let body = match select_dialect(s.endpoint.as_str()) {
        Dialect::Native => {
            let last = &messages[messages.len() - 1];
            ChatBody::Native { model: s.model.clone(), prompt: last.content.clone() }
        },
        Dialect::OpenAiCompatible => ChatBody::OpenAiCompatible {
            model: s.model.clone(),
            messages: copy_messages(messages),
            max_tokens: s.max_tokens,
        },
    };
    Ok(ChatRequest { url, authorization: auth, body })
}

/// The reply that the parsed answer `v` holds, or `NoContent`.
pub fn reply_from_json(v: &serde_json::Value) -> (r: Result<String, Failure>)
    ensures
        match reply_of(*v) {
            Some(t) => r matches Ok(s) && s@ == t,
            None => r == Err::<String, Failure>(Failure::NoContent),
        },
{
    if let Some(choices) = member(v, "choices") {
        if let Some(list) = elements(choices) {
            if list.len() > 0 {
                if let Some(message) = member(&list[0], "message") {
                    if let Some(content) = member(message, "content") {
                        if let Some(text) = text_value(content) {
                            return Ok(text.to_owned());
                        }
                    }
                }
            }
        }
    }
    if let Some(response) = member(v, "response") {
        if let Some(text) = text_value(response) {
            return Ok(text.to_owned());
        }
    }
    Err(Failure::NoContent)
}

/// The reply in a successful answer's body: `Malformed` when the body is not
/// JSON, `NoContent` when it holds no reply field.
pub fn extract_reply(body: &str) -> (r: Result<String, Failure>)
    ensures
        match parsed_json(body@) {
            None => r == Err::<String, Failure>(Failure::Malformed),
            Some(v) => match reply_of(v) {
                Some(t) => r matches Ok(s) && s@ == t,
                None => r == Err::<String, Failure>(Failure::NoContent),
            },
        },
{
    match parse_json(body) {
        Ok(v) => reply_from_json(&v),
        Err(_) => Err(Failure::Malformed),
    }
}

/// The outcome of a chat turn, from how the transport ended.
pub fn finish_chat(outcome: Transport) -> (r: Result<String, Failure>)
    ensures
        match outcome {
            Transport::Failed(cause) => r == Err::<String, Failure>(Failure::Connection(cause)),
            Transport::Answered { status, body } => if 200 <= status <= 299 {
                match parsed_json(body@) {
                    None => r == Err::<String, Failure>(Failure::Malformed),
                    Some(v) => match reply_of(v) {
                        Some(t) => r matches Ok(s) && s@ == t,
                        None => r == Err::<String, Failure>(Failure::NoContent),
                    },
                }
            } else {
                r == Err::<String, Failure>(Failure::Api { status, body })
            },
            Transport::Unread { status, cause } => if 200 <= status <= 299 {
                r == Err::<String, Failure>(Failure::Connection(cause))
            } else {
                r matches Err(Failure::Api { status: s, body: b }) && s == status && b@.len() == 0
            },
        },
{
    match outcome {
        Transport::Failed(cause) => Err(Failure::Connection(cause)),
        Transport::Answered { status, body } => {
            if 200 <= status && status <= 299 {
                extract_reply(body.as_str())
            } else {
                Err(Failure::Api { status, body })
            }
        },
        Transport::Unread { status, cause } => {
            if 200 <= status && status <= 299 {
                Err(Failure::Connection(cause))
            } else {
                Err(Failure::Api { status, body: String::new() })
            }
        },
    }
}

} // verus!
