use agent_rotary::context::JsonValue;
use agent_rotary::error::{ExceptionClass, OrchestratorError};
use agent_rotary::json::{element_of, member_of, object_fields, stored, JsonTree};
use agent_rotary::providers::{
    anthropic_answer, anthropic_reply, anthropic_request, anthropic_text_of, anthropic_url, chat_answer,
    chat_messages, chat_reply, chat_request, chat_url, is_success, openai_content_of, ProviderRegistry,
    DECODE_ERROR, DEFAULT_MAX_TOKENS,
};

#[test]
fn registry_keeps_providers_by_name() {
    let mut r: ProviderRegistry<u8> = ProviderRegistry::new();
    assert!(r.get("kimi").is_none());
    r.register("kimi".to_string(), 1);
    r.register("codex".to_string(), 2);
    r.register("kimi".to_string(), 3);
    assert_eq!(r.get("kimi"), Some(&3));
    assert_eq!(r.get("codex"), Some(&2));
    assert_eq!(r.names(), vec!["kimi".to_string(), "codex".to_string()]);
    let empty: ProviderRegistry<u8> = ProviderRegistry::default();
    assert!(empty.names().is_empty());
}

#[test]
fn chat_url_strips_trailing_slashes() {
    assert_eq!(chat_url("https://api.moonshot.ai/v1"), "https://api.moonshot.ai/v1/chat/completions");
    assert_eq!(chat_url("https://api.openai.com/v1//"), "https://api.openai.com/v1/chat/completions");
    assert_eq!(chat_url(""), "/chat/completions");
}

#[test]
fn chat_messages_put_the_system_prompt_first() {
    let m = chat_messages(Some("be brief"), "hello");
    assert_eq!(m.len(), 2);
    assert_eq!((m[0].role.as_str(), m[0].content.as_str()), ("system", "be brief"));
    assert_eq!((m[1].role.as_str(), m[1].content.as_str()), ("user", "hello"));
    let m = chat_messages(None, "hi");
    assert_eq!(m.len(), 1);
    assert_eq!((m[0].role.as_str(), m[0].content.as_str()), ("user", "hi"));
}

#[test]
fn success_statuses_are_the_2xx() {
    assert!(is_success(200));
    assert!(is_success(204));
    assert!(is_success(299));
    assert!(!is_success(199));
    assert!(!is_success(300));
    assert!(!is_success(404));
    assert!(!is_success(500));
}

#[test]
fn errors_map_to_python_exception_classes() {
    let s = || "x".to_string();
    assert_eq!(OrchestratorError::ProviderNotFound(s()).exception_class(), ExceptionClass::KeyError);
    assert_eq!(OrchestratorError::NodeNotFound(s()).exception_class(), ExceptionClass::KeyError);
    assert_eq!(OrchestratorError::MissingContext(s()).exception_class(), ExceptionClass::KeyError);
    assert_eq!(OrchestratorError::Config(s()).exception_class(), ExceptionClass::ValueError);
    assert_eq!(OrchestratorError::Template(s()).exception_class(), ExceptionClass::ValueError);
    assert_eq!(OrchestratorError::DeadEnd(s()).exception_class(), ExceptionClass::RuntimeError);
    assert_eq!(OrchestratorError::MaxIterations(10).exception_class(), ExceptionClass::RuntimeError);
    assert_eq!(OrchestratorError::Http(s()).exception_class(), ExceptionClass::RuntimeError);
    assert_eq!(
        OrchestratorError::ProviderStatus { provider: s(), status: 500, body: s() }.exception_class(),
        ExceptionClass::RuntimeError
    );
    assert_eq!(OrchestratorError::Parse(s()).exception_class(), ExceptionClass::RuntimeError);
    assert_eq!(OrchestratorError::Serde(s()).exception_class(), ExceptionClass::RuntimeError);
    assert_eq!(OrchestratorError::Other(s()).exception_class(), ExceptionClass::RuntimeError);
}

#[test]
fn chat_request_holds_the_model_and_the_messages() {
    let r = chat_request(Some("sys"), "hi", "gpt");
    assert_eq!(r.model, "gpt");
    assert_eq!(r.messages.len(), 2);
    assert_eq!(r.messages[0].role, "system");
    assert_eq!(r.messages[1].content, "hi");
}

#[test]
fn anthropic_request_keeps_the_system_prompt_apart() {
    let r = anthropic_request(Some("be brief"), "hello", "opus");
    assert_eq!(r.model, "opus");
    assert_eq!(r.max_tokens, 4096);
    assert_eq!(DEFAULT_MAX_TOKENS, 4096);
    assert_eq!(r.messages.len(), 1);
    assert_eq!((r.messages[0].role.as_str(), r.messages[0].content.as_str()), ("user", "hello"));
    assert_eq!(r.system, Some("be brief".to_string()));
    assert_eq!(anthropic_request(None, "x", "m").system, None);
}

#[test]
fn anthropic_url_is_the_messages_endpoint() {
    assert_eq!(anthropic_url(), "https://api.anthropic.com/v1/messages");
}

#[test]
fn chat_answer_takes_the_first_choice() {
    let body = r#"{"choices":[{"message":{"role":"assistant","content":"hello"}}]}"#;
    assert_eq!(chat_answer(200, body.as_bytes().to_vec(), "kimi"), Ok("hello".to_string()));
}

#[test]
fn chat_answer_reports_a_failed_status_with_its_body() {
    assert_eq!(
        chat_answer(429, "slow down".as_bytes().to_vec(), "codex"),
        Err(OrchestratorError::ProviderStatus {
            provider: "codex".to_string(),
            status: 429,
            body: "slow down".to_string()
        })
    );
}

#[test]
fn chat_answer_reports_a_body_that_is_not_json() {
    assert_eq!(
        chat_answer(200, "<html>".as_bytes().to_vec(), "kimi"),
        Err(OrchestratorError::Http("error decoding response body".to_string()))
    );
    assert_eq!(DECODE_ERROR, "error decoding response body");
}

#[test]
fn chat_answer_quotes_a_reply_without_content() {
    assert_eq!(
        chat_answer(200, r#"{ "choices" : [] }"#.as_bytes().to_vec(), "kimi"),
        Err(OrchestratorError::Parse("no content in kimi response: {\"choices\":[]}".to_string()))
    );
    assert_eq!(
        chat_answer(200, r#"{"choices":[{"message":{"content":3.50}}]}"#.as_bytes().to_vec(), "codex"),
        Err(OrchestratorError::Parse(
            "no content in codex response: {\"choices\":[{\"message\":{\"content\":3.5}}]}".to_string()
        ))
    );
}

#[test]
fn anthropic_answer_takes_the_first_text_block() {
    let body = r#"{"content":[{"type":"text","text":"bonjour"}],"role":"assistant"}"#;
    assert_eq!(anthropic_answer(200, body.as_bytes().to_vec()), Ok("bonjour".to_string()));
    assert_eq!(
        anthropic_answer(200, "[1]".as_bytes().to_vec()),
        Err(OrchestratorError::Parse("no text in anthropic response: [1]".to_string()))
    );
    assert_eq!(
        anthropic_answer(500, "down".as_bytes().to_vec()),
        Err(OrchestratorError::ProviderStatus {
            provider: "anthropic".to_string(),
            status: 500,
            body: "down".to_string()
        })
    );
}

#[test]
fn replies_are_decided_on_the_parsed_document() {
    let doc = JsonTree::Object(vec![(
        "content".to_string(),
        JsonTree::Array(vec![JsonTree::Object(vec![("text".to_string(), JsonTree::Text("t".to_string()))])]),
    )]);
    assert_eq!(anthropic_reply(200, String::new(), Some(&doc)), Ok("t".to_string()));
    assert_eq!(anthropic_text_of(&doc), Some("t".to_string()));
    assert_eq!(openai_content_of(&doc), None);
    assert_eq!(
        chat_reply(200, String::new(), "kimi", Some(&JsonTree::Null)),
        Err(OrchestratorError::Parse("no content in kimi response: null".to_string()))
    );
    assert_eq!(
        chat_reply(201, String::new(), "kimi", None),
        Err(OrchestratorError::Http("error decoding response body".to_string()))
    );
}

#[test]
fn json_lookups_follow_members_and_elements() {
    let doc = JsonTree::Object(vec![
        ("a".to_string(), JsonTree::Number("1".to_string())),
        ("b".to_string(), JsonTree::Array(vec![JsonTree::Bool(true)])),
    ]);
    assert!(matches!(member_of(&doc, "a"), Some(JsonTree::Number(n)) if n == "1"));
    assert!(member_of(&doc, "c").is_none());
    let b = member_of(&doc, "b").unwrap();
    assert!(matches!(element_of(b, 0), Some(JsonTree::Bool(true))));
    assert!(element_of(b, 1).is_none());
    assert!(element_of(&doc, 0).is_none());
    assert!(member_of(b, "a").is_none());
}

#[test]
fn members_are_stored_as_null_text_or_json_text() {
    assert_eq!(stored(&JsonTree::Null), JsonValue::Null);
    assert_eq!(stored(&JsonTree::Text("s".to_string())), JsonValue::Text("s".to_string()));
    assert_eq!(stored(&JsonTree::Number("2.50".to_string())), JsonValue::Json("2.5".to_string()));
    assert_eq!(
        stored(&JsonTree::Array(vec![JsonTree::Bool(false), JsonTree::Text("x".to_string())])),
        JsonValue::Json("[false,\"x\"]".to_string())
    );
    let fields = object_fields(r#"{"n": 1e2, "o": {"k": null}}"#).unwrap();
    assert_eq!(
        fields,
        vec![
            ("n".to_string(), JsonValue::Json("100.0".to_string())),
            ("o".to_string(), JsonValue::Json("{\"k\":null}".to_string())),
        ]
    );
    assert!(object_fields("[1]").is_none());
    assert!(object_fields("{").is_none());
}

#[test]
fn errors_have_their_messages() {
    let s = || "x".to_string();
    assert_eq!(OrchestratorError::ProviderNotFound(s()).message(), "Provider 'x' not found in registry");
    assert_eq!(OrchestratorError::NodeNotFound(s()).message(), "Node 'x' not found in workflow");
    assert_eq!(
        OrchestratorError::DeadEnd(s()).message(),
        "Workflow dead-end at node 'x' (no outgoing edge satisfied)"
    );
    assert_eq!(
        OrchestratorError::MaxIterations(10).message(),
        "Max iterations (10) reached \u{2014} possible feedback loop runaway"
    );
    assert_eq!(
        OrchestratorError::MaxIterations(0).message(),
        "Max iterations (0) reached \u{2014} possible feedback loop runaway"
    );
    assert_eq!(OrchestratorError::MissingContext(s()).message(), "Missing required context key: x");
    assert_eq!(OrchestratorError::Template(s()).message(), "Template render error: x");
    assert_eq!(OrchestratorError::Http(s()).message(), "HTTP error: x");
    assert_eq!(
        OrchestratorError::ProviderStatus { provider: "kimi".to_string(), status: 503, body: "busy".to_string() }
            .message(),
        "Provider 'kimi' returned an error (status 503): busy"
    );
    assert_eq!(OrchestratorError::Parse(s()).message(), "Failed to parse provider response: x");
    assert_eq!(OrchestratorError::Config(s()).message(), "Configuration error: x");
    assert_eq!(OrchestratorError::Serde(s()).message(), "x");
    assert_eq!(OrchestratorError::Other(s()).message(), "x");
}

#[test]
fn reply_bodies_are_read_as_raw_bytes() {
    let mut bom = vec![0xEF, 0xBB, 0xBF];
    bom.extend_from_slice(br#"{"choices":[{"message":{"content":"x"}}]}"#);
    assert_eq!(
        chat_answer(200, bom, "kimi"),
        Err(OrchestratorError::Http("error decoding response body".to_string()))
    );
    assert_eq!(
        chat_answer(502, vec![b'a', 0xFF, b'b'], "kimi"),
        Err(OrchestratorError::ProviderStatus {
            provider: "kimi".to_string(),
            status: 502,
            body: "a\u{FFFD}b".to_string()
        })
    );
}
