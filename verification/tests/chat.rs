//! Chat requests and reasoning efforts.

use ai_memory_purge::chat::{ChatMessage, ChatRequest, ChatResponse, ReasoningEffort, Role, Usage};

#[test]
fn reasoning_effort_roundtrips() {
    let labels: Vec<&str> = ReasoningEffort::variants().iter().map(|e| e.as_str()).collect();
    assert_eq!(
        labels,
        vec![
            "none",
            "minimal",
            "low",
            "medium",
            "high",
            "xhigh",
            "max",
            "ultra",
            "persistent",
        ]
    );
    for effort in ReasoningEffort::variants() {
        let raw = effort.as_str();
        let parsed = ReasoningEffort::from_label(raw).unwrap();
        assert_eq!(parsed, effort);
        assert_eq!(parsed.as_str(), raw);
    }
}

#[test]
fn reasoning_effort_rejects_invalid() {
    for raw in ["HIGH", "ludicrous", "", "none "] {
        assert!(ReasoningEffort::from_label(raw).is_none(), "{raw}");
    }
}

#[test]
fn grok_clamps_unsupported_effort() {
    for (input, expected) in [
        (ReasoningEffort::Off, ReasoningEffort::Low),
        (ReasoningEffort::Minimal, ReasoningEffort::Low),
        (ReasoningEffort::Max, ReasoningEffort::XHigh),
        (ReasoningEffort::Ultra, ReasoningEffort::XHigh),
        (ReasoningEffort::Persistent, ReasoningEffort::XHigh),
        (ReasoningEffort::Medium, ReasoningEffort::Medium),
    ] {
        assert_eq!(input.grok_chat_effort(), expected);
    }
}

#[test]
fn anthropic_maps_output_effort() {
    for (input, expected) in [
        (ReasoningEffort::Off, None),
        (ReasoningEffort::Minimal, Some(ReasoningEffort::Low)),
        (ReasoningEffort::Ultra, Some(ReasoningEffort::Max)),
        (ReasoningEffort::High, Some(ReasoningEffort::High)),
    ] {
        assert_eq!(input.anthropic_output_effort(), expected);
    }
}

#[test]
fn openai_clamps_non_enum_effort() {
    for (input, expected) in [
        (ReasoningEffort::Ultra, ReasoningEffort::Max),
        (ReasoningEffort::Persistent, ReasoningEffort::Max),
        (ReasoningEffort::XHigh, ReasoningEffort::XHigh),
        (ReasoningEffort::Off, ReasoningEffort::Off),
    ] {
        assert_eq!(input.openai_wire_effort(), expected);
    }
}

#[test]
fn messages_carry_their_role_and_text() {
    let m = ChatMessage::user("hi");
    assert_eq!(m.role, Role::User);
    assert_eq!(m.content, "hi");
    let m = ChatMessage::assistant("yes".to_string());
    assert_eq!(m.role, Role::Assistant);
    assert_eq!(m.content, "yes");
    assert_eq!(Role::User.as_str(), "user");
    assert_eq!(Role::from_label("assistant"), Some(Role::Assistant));
    assert_eq!(Role::from_label("User"), None);
}

#[test]
fn a_prompt_becomes_a_request() {
    let r: ChatRequest<f32> = ChatRequest::user_prompt("hello");
    assert!(r.system.is_none());
    assert_eq!(r.messages.len(), 1);
    assert_eq!(r.messages[0].content, "hello");
    assert_eq!(r.max_tokens, 1024);
    assert!(r.temperature.is_none());
    let r = r.with_max_tokens(7);
    assert_eq!(r.max_tokens, 7);
    assert_eq!(r.messages[0].content, "hello");
    let usage = Usage::default();
    assert_eq!((usage.input_tokens, usage.output_tokens), (0, 0));
    let response =
        ChatResponse { text: "t".to_string(), usage: Some(usage), model: "m".to_string() };
    assert_eq!(response.text, "t");
}
