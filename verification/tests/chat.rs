use agent_platform_desktop::chat::{Chunk, Effect, Message, State};

fn with_draft(draft: &str) -> State {
    let mut s = State::new();
    s.draft = draft.into();
    s
}

#[test]
fn sending_appends_the_user_turn_and_clears_the_draft() {
    let mut s = with_draft("  hello  ");
    let fx = s.update(Message::Send);
    assert_eq!(s.messages.len(), 1);
    assert_eq!(s.messages[0].content, "hello");
    assert_eq!(s.messages[0].role, "user");
    assert!(s.draft.is_empty());
    assert!(s.sending);
    match fx {
        Effect::Send { messages, .. } => {
            assert_eq!(messages.len(), 1);
            assert_eq!(messages[0].content, "hello");
        }
        other => panic!("expected a send, got {other:?}"),
    }
}

#[test]
fn blank_and_in_flight_sends_are_ignored() {
    let mut s = with_draft("   ");
    let _ = s.update(Message::Send);
    assert!(s.messages.is_empty());

    let mut s = with_draft("hi");
    s.sending = true;
    let _ = s.update(Message::Send);
    assert!(s.messages.is_empty());
}

#[test]
fn scope_context_leads_the_wire_history_but_not_the_transcript() {
    let mut s = with_draft("hi");
    s.system = Some("run 7".into());
    let _ = s.update(Message::Send);
    let wire = s.wire_messages();
    assert_eq!(wire.len(), 2);
    assert_eq!(wire[0].role, "system");
    assert_eq!(wire[0].content, "run 7");
    assert_eq!(wire[1].content, "hi");
    assert_eq!(s.messages.len(), 1);
}

#[test]
fn a_failed_turn_stays_in_the_thread() {
    let mut s = with_draft("hi");
    let _ = s.update(Message::Send);
    let _ = s.update(Message::Chunk(Chunk::Failed("boom".into())));
    assert_eq!(s.messages.len(), 1);
    assert!(!s.sending);
    assert_eq!(s.error.as_deref(), Some("boom"));
}

#[test]
fn deltas_accumulate_into_one_assistant_turn() {
    let mut s = with_draft("hi");
    let _ = s.update(Message::Send);
    for part in ["He", "llo", " there"] {
        let _ = s.update(Message::Chunk(Chunk::Delta(part.into())));
    }
    let _ = s.update(Message::Chunk(Chunk::Done));
    assert_eq!(s.messages.len(), 2, "one user turn, one assistant turn");
    assert_eq!(s.messages[1].role, "assistant");
    assert_eq!(s.messages[1].content, "Hello there");
    assert_eq!(s.reasoning.len(), s.messages.len());
    assert!(!s.sending);
}

#[test]
fn reasoning_collects_apart_from_the_reply_and_stays_off_the_wire() {
    let mut s = with_draft("hi");
    let _ = s.update(Message::Send);
    let _ = s.update(Message::Chunk(Chunk::Reasoning("hmm, ".into())));
    assert_eq!(s.messages.len(), 2);
    assert!(s.reasoning_live(1));
    let _ = s.update(Message::Chunk(Chunk::Reasoning("ok".into())));
    let _ = s.update(Message::Chunk(Chunk::Delta("Answer".into())));
    let _ = s.update(Message::Chunk(Chunk::Done));
    assert_eq!(s.reasoning[1], "hmm, ok");
    assert_eq!(s.messages[1].content, "Answer");
    assert!(!s.reasoning_live(1));
    assert!(s.wire_messages().iter().all(|m| !m.content.contains("hmm")));

    let _ = s.update(Message::ToggleReasoning(1));
    assert!(s.reasoning_open.contains(&1));
    let _ = s.update(Message::ToggleReasoning(1));
    assert!(!s.reasoning_open.contains(&1));
}

#[test]
fn partial_text_survives_a_mid_stream_failure() {
    let mut s = with_draft("hi");
    let _ = s.update(Message::Send);
    let _ = s.update(Message::Chunk(Chunk::Delta("half".into())));
    let _ = s.update(Message::Chunk(Chunk::Failed("boom".into())));
    assert_eq!(s.messages[1].content, "half");
    assert_eq!(s.error.as_deref(), Some("boom"));
    assert!(!s.streaming);
}

#[test]
fn a_link_in_the_transcript_is_handed_out() {
    let mut s = State::new();
    let fx = s.update(Message::LinkClicked("https://example.com".into()));
    assert!(matches!(fx, Effect::OpenLink(u) if u == "https://example.com"));
}

#[test]
fn clearing_empties_the_thread() {
    let mut s = with_draft("hi");
    let _ = s.update(Message::Send);
    let _ = s.update(Message::Clear);
    assert!(s.messages.is_empty());
    assert!(s.reasoning.is_empty());
}
