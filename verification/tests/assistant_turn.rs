use agent_platform_desktop::assistant::{command_of, mode_of, salvage_calls, Mode, ToolOutcome};
use agent_platform_desktop::assistant_turn::{Effect, Fragment, Message, State, EMPTY_REPLY};
use agent_platform_desktop::providers::{model_options, provider_ids, ProviderEntry};

fn memory_tools() -> Vec<String> {
    vec!["remember".to_string(), "forget".to_string(), "recall".to_string()]
}

fn run(s: State, msg: Message) -> (State, Vec<Effect>) {
    s.step(&memory_tools(), msg)
}

fn drafted(text: &str) -> State {
    State { draft: text.into(), ..State::new() }
}

/// A whole reply arriving as one piece plus the end of the stream.
fn reply(s: State, text: &str) -> (State, Vec<Effect>) {
    let (s, _) = run(s, Message::Delta(text.into()));
    run(s, Message::Done)
}

fn thinking(s: &State) -> bool {
    mode_of(false, s.sending, s.synthesizing, false, false, false) == Mode::Thinking
}

fn spoken(fx: &[Effect]) -> Vec<String> {
    fx.iter()
        .filter_map(|e| match e {
            Effect::Speak(t) => Some(t.clone()),
            _ => None,
        })
        .collect()
}

#[test]
fn sending_appends_turn_and_thinks() {
    let (s, fx) = run(drafted(" status? "), Message::Send);
    assert_eq!(s.messages.len(), 1);
    assert_eq!(s.messages[0].content, "status?");
    assert!(s.sending);
    assert!(thinking(&s));
    assert!(matches!(fx.last(), Some(Effect::Request { tools: true })));
}

#[test]
fn a_blank_send_is_ignored_but_an_interrupting_one_replaces_the_turn() {
    let (s, fx) = run(drafted("  "), Message::Send);
    assert!(s.messages.is_empty());
    assert!(fx.is_empty());

    // Sending over the top of a reply that is still arriving: the new turn
    // goes through and the old stream is cut.
    let s = State { sending: true, ..State::new() };
    let (s, _) = run(s, Message::Delta("Half an ans".into()));
    assert!(s.streaming);
    let (s, fx) = run(State { draft: "hi".into(), ..s }, Message::Send);
    assert_eq!(s.messages.len(), 2);
    assert_eq!(s.messages[1].content, "hi");
    assert!(!s.streaming, "the interrupted stream is closed, not left open");
    assert!(matches!(fx[1], Effect::AbortStream));
}

#[test]
fn abort_stops_the_turn_and_keeps_what_was_already_said() {
    let (s, _) = run(drafted("hi"), Message::Send);
    let (s, _) = run(s, Message::Delta("Half".into()));
    let (s, fx) = run(s, Message::Abort);
    assert!(!s.sending);
    assert!(!s.streaming);
    assert_eq!(s.messages.last().unwrap().content, "Half", "the words it got out stay");
    assert!(matches!(fx[..], [Effect::Hush, Effect::AbortStream]));
}

#[test]
fn failed_turn_stays_with_error() {
    let (s, _) = run(drafted("hi"), Message::Send);
    let (s, _) = run(s, Message::Failed("boom".into()));
    assert_eq!(s.messages.len(), 1);
    assert!(!s.sending);
    assert_eq!(s.error.as_deref(), Some("boom"));
}

#[test]
fn muted_reply_skips_synthesis() {
    let (s, fx) = reply(State { voice: false, ..State::new() }, "hello");
    assert_eq!(s.messages.len(), 1);
    assert!(!s.synthesizing);
    assert!(spoken(&fx).is_empty());
    assert_eq!(mode_of(false, s.sending, s.synthesizing, false, false, false), Mode::Idle);

    let (s, _) = run(s, Message::ToggleVoice);
    assert!(s.voice);
}

#[test]
fn reasoning_is_shown_but_never_spoken() {
    let s = State::new(); // voice on
    let (s, fx) = run(s, Message::Reasoning("User asks for status; check the basics.".into()));
    // Reasoning alone opened the turn and nothing went to the voice.
    assert_eq!(s.messages.len(), 1);
    assert!(s.streaming && s.messages[0].content.is_empty());
    assert!(!s.synthesizing);
    assert!(spoken(&fx).is_empty());
    let (s, fx1) = run(s, Message::Delta("Systems nominal.".into()));
    let (s, fx2) = run(s, Message::Done);
    assert_eq!(s.reasoning[0], "User asks for status; check the basics.");
    assert_eq!(s.messages[0].content, "Systems nominal.");
    // What reached the voice is the reply, not the deliberation.
    let mut said = spoken(&fx1);
    said.extend(spoken(&fx2));
    assert_eq!(said, vec!["Systems nominal.".to_string()]);
}

#[test]
fn voiced_reply_enters_synthesis() {
    let (s, _) = reply(State::new(), "hi");
    assert!(s.synthesizing);
    assert!(thinking(&s));
}

#[test]
fn the_first_sentence_is_synthesized_before_the_reply_ends() {
    let (s, _) = run(drafted("status"), Message::Send);
    // Mid-stream: one closed sentence, one still arriving.
    let (s, fx) = run(s, Message::Delta("Systems are nominal, boss. And the".into()));
    assert!(s.synthesizing, "sentence one goes out while the reply is still streaming");
    // The opening chunk leaves at the comma.
    assert_eq!(spoken(&fx), vec!["Systems are nominal,".to_string()]);
    assert_eq!(s.speech_buf, "boss. And the", "the open clause waits for its terminator");
    assert!(s.sending, "the turn is not over yet");

    // The tail flushes at end of stream even without a terminator.
    let (s, _) = run(s, Message::Delta(" rest".into()));
    let (s, _) = run(s, Message::Done);
    assert_eq!(s.speech_queue.first().map(String::as_str), Some("boss. And the rest"));
    assert_eq!(s.messages.last().unwrap().content, "Systems are nominal, boss. And the rest");
    assert!(!s.sending);
}

#[test]
fn a_tool_round_runs_the_terminal_and_keeps_the_turn_open() {
    let s = State { draft: "how much disk is free?".into(), voice: false, ..State::new() };
    let (s, _) = run(s, Message::Send);

    // The model narrates, then asks for the terminal in streamed pieces.
    let (s, _) = run(s, Message::Delta("Checking.".into()));
    let (s, _) = run(
        s,
        Message::ToolPiece(Fragment {
            index: 0,
            id: Some("call_1".into()),
            name: Some("run_command".into()),
            arguments: "{\"command\": \"Get-".into(),
        }),
    );
    let (s, _) = run(
        s,
        Message::ToolPiece(Fragment { index: 0, id: None, name: None, arguments: "PSDrive C\"}".into() }),
    );
    let (s, fx) = run(s, Message::Done);

    let turn = s.messages.last().unwrap();
    let calls = turn.tool_calls.as_ref().expect("calls attached to the assistant turn");
    assert_eq!(calls[0].id, "call_1");
    assert_eq!(calls[0].arguments, "{\"command\": \"Get-PSDrive C\"}");
    assert_eq!(command_of(&calls[0]), "Get-PSDrive C");
    assert!(s.sending, "the turn stays open while the terminal works");
    assert!(s.tool_buf.is_empty());
    match fx.last() {
        Some(Effect::RunTools { memory, shell }) => {
            assert!(memory.is_empty());
            assert_eq!(shell.len(), 1);
            assert_eq!(shell[0].id, "call_1");
        }
        other => panic!("expected a round to run, got {other:?}"),
    }

    // Results come back: a tool message joins the history and the request
    // goes out again with the round counted.
    let (s, fx) = run(
        s,
        Message::ToolResults(vec![ToolOutcome { id: "call_1".into(), output: "Free: 120G".into() }]),
    );
    let tool = s.messages.last().unwrap();
    assert_eq!(tool.role, "tool");
    assert_eq!(tool.tool_call_id.as_deref(), Some("call_1"));
    assert_eq!(tool.content, "Free: 120G");
    assert_eq!(s.tool_rounds, 1);
    assert!(s.sending);
    assert_eq!(s.messages.len(), s.reasoning.len(), "messages and reasoning stay aligned");
    assert!(matches!(fx[..], [Effect::Request { tools: true }]));
}

#[test]
fn a_call_written_out_as_prose_is_still_run() {
    let (s, _) = run(drafted("remember I fly a Quinjet"), Message::Send);
    let typed = r#"[{"name": "remember", "arguments": {"text": "Flies a Quinjet."}}]"#;
    let (s, _) = run(s, Message::Delta(typed.into()));
    let (s, fx) = run(s, Message::Done);
    match fx.last() {
        Some(Effect::RunTools { memory, shell }) => {
            assert_eq!(memory.len(), 1, "the typed-out call runs against the memory");
            assert_eq!(memory[0].name, "remember");
            assert_eq!(memory[0].id, "salvaged_0");
            assert!(memory[0].arguments.contains("Flies a Quinjet."));
            assert!(shell.is_empty());
        }
        other => panic!("expected a round to run, got {other:?}"),
    }
    assert!(
        s.messages.last().unwrap().content.is_empty(),
        "the raw JSON is replaced by the call, not left in the transcript"
    );
    assert!(s.speech_queue.is_empty(), "the JSON is not read aloud");

    // Anything that is not exactly a call to a tool that exists stays prose.
    let tools = memory_tools();
    assert!(salvage_calls("Sure, I'll remember that.", &tools).is_none());
    assert!(salvage_calls(r#"{"name": "rm_rf", "arguments": {}}"#, &tools).is_none());
    assert!(salvage_calls(r#"Use {"name": "forget", "arguments": {"id": 1}} to delete."#, &tools)
        .is_none());
    // Fenced, and with arguments as a string, are both still calls.
    let fenced =
        salvage_calls("```json\n{\"name\": \"forget\", \"arguments\": \"{\\\"id\\\": 2}\"}\n```", &tools)
            .expect("a fenced call");
    assert_eq!(fenced[0].name, "forget");
    assert_eq!(fenced[0].arguments, r#"{"id": 2}"#);
}

#[test]
fn a_tool_only_reply_still_gets_an_assistant_turn() {
    let s = State { draft: "list files".into(), voice: false, ..State::new() };
    let (s, _) = run(s, Message::Send);
    // No text at all — straight to the tool.
    let (s, _) = run(
        s,
        Message::ToolPiece(Fragment {
            index: 0,
            id: Some("c1".into()),
            name: Some("run_command".into()),
            arguments: "{\"command\": \"ls\"}".into(),
        }),
    );
    let (s, _) = run(s, Message::Done);
    let turn = s.messages.last().unwrap();
    assert_eq!(turn.role, "assistant");
    assert_eq!(turn.content, "");
    assert!(turn.tool_calls.is_some());
    assert_eq!(s.messages.len(), 2);
}

#[test]
fn hush_drops_queued_speech() {
    let (mut s, _) = reply(State::new(), "One thing and another thing. Then a second sentence here.");
    assert!(!s.speech_queue.is_empty());
    s.hush();
    assert!(s.speech_queue.is_empty());
    assert!(s.speech_buf.is_empty());
}

#[test]
fn pieces_of_a_call_assemble_by_index() {
    let piece = |index: usize, id: Option<&str>, args: &str| {
        Message::ToolPiece(Fragment {
            index,
            id: id.map(String::from),
            name: id.map(|_| "run_command".to_string()),
            arguments: args.into(),
        })
    };
    let (s, fx) = run(State::new(), piece(1, Some("b"), "{\"command\":"));
    assert!(fx.is_empty());
    assert_eq!(s.tool_buf.len(), 2, "the buffer reaches the index, the gap left empty");
    assert_eq!(s.tool_buf[0].id, "");
    let (s, _) = run(s, piece(0, Some("a"), "{}"));
    let (s, _) = run(s, piece(1, None, " \"ls\"}"));
    assert_eq!(s.tool_buf[0].id, "a");
    assert_eq!(s.tool_buf[1].id, "b");
    assert_eq!(s.tool_buf[1].arguments, "{\"command\": \"ls\"}");
}

#[test]
fn an_empty_reply_is_an_error_and_ends_the_turn() {
    let (s, _) = run(drafted("hello?"), Message::Send);
    let (s, fx) = run(s, Message::Done);
    assert_eq!(s.error.as_deref(), Some(EMPTY_REPLY));
    assert!(!s.sending);
    assert_eq!(s.messages.len(), 1, "no empty reply is added");
    assert!(matches!(fx[..], [Effect::ReplyEnded, Effect::ScrollToEnd]));
    let (s, _) = run(s, Message::DismissError);
    assert!(s.error.is_none());
}

#[test]
fn past_the_round_cap_the_tools_are_withheld() {
    let mut s = State { sending: true, ..State::new() };
    let mut offered = Vec::new();
    for i in 0..6 {
        let (next, fx) = run(
            s,
            Message::ToolResults(vec![ToolOutcome { id: format!("c{i}"), output: "ok".into() }]),
        );
        s = next;
        offered.push(matches!(fx[..], [Effect::Request { tools: true }]));
    }
    assert_eq!(offered, vec![true, true, true, true, false, false]);
    assert_eq!(s.tool_rounds, 6);
    assert_eq!(s.messages.len(), 6);
}

#[test]
fn the_voice_takes_one_sentence_at_a_time() {
    let (s, fx) = run(State::new(), Message::Delta("The first sentence is here. The second one follows it. And".into()));
    assert_eq!(spoken(&fx), vec!["The first sentence is here.".to_string()]);
    assert_eq!(s.speech_queue, vec!["The second one follows it.".to_string()]);
    let (s, fx) = run(s, Message::VoiceReady);
    assert_eq!(spoken(&fx), vec!["The second one follows it.".to_string()]);
    assert!(s.speech_queue.is_empty());
    let (s, fx) = run(s, Message::VoiceReady);
    assert!(fx.is_empty());
    assert!(!s.synthesizing);
}

#[test]
fn muting_and_clearing_stop_the_voice() {
    let (s, _) = run(State::new(), Message::Delta("The first sentence is here. The second one follows it.".into()));
    let (s, fx) = run(s, Message::ToggleVoice);
    assert!(!s.voice);
    assert!(s.speech_queue.is_empty() && s.speech_buf.is_empty());
    assert!(matches!(fx[..], [Effect::Hush]));
    let (s, fx) = run(State { draft: "kept".into(), ..s }, Message::Clear);
    assert!(s.messages.is_empty() && s.reasoning.is_empty());
    assert!(!s.streaming && s.tool_rounds == 0 && s.error.is_none());
    assert_eq!(s.draft, "kept");
    assert!(matches!(fx[..], [Effect::Hush]));
}

#[test]
fn update_runs_the_turn_in_place() {
    let mut s = drafted("what time is it?");
    let fx = agent_platform_desktop::assistant::update(&mut s, &memory_tools(), Message::Send);
    assert_eq!(s.messages.len(), 1);
    assert_eq!(s.messages[0].role, "user");
    assert!(s.draft.is_empty());
    assert!(matches!(fx[..], [Effect::Hush, Effect::AbortStream, Effect::Request { tools: true }]));
    let fx = agent_platform_desktop::assistant::update(&mut s, &memory_tools(), Message::Delta("Noon.".into()));
    assert_eq!(s.messages[1].content, "Noon.");
    assert!(matches!(fx[0], Effect::ScrollToEnd));
}

fn entry(id: &str, model: &str, configured: bool) -> ProviderEntry {
    ProviderEntry { id: id.into(), configured, options: vec![model.into()] }
}

/// An utterance the transcriber heard, in the user's own voice unless said.
fn heard(s: State, text: &str, follow_up: bool) -> (State, Vec<Effect>) {
    run(s, Message::Heard { text: Ok(text.into()), mine: true, follow_up })
}

#[test]
fn unconfigured_providers_are_not_offered() {
    let (s, fx) = run(
        State::new(),
        Message::CatalogLoaded(Ok(vec![
            entry("ollama", "qwen2.5:7b", true),
            entry("gemini", "gemini-2.0-flash", false),
        ])),
    );
    assert!(fx.is_empty());
    assert_eq!(provider_ids(&s.catalog), vec!["ollama".to_string()]);
    // No provider picked means "every model on offer" — still only the
    // configured provider's.
    assert_eq!(model_options(&s.catalog, &s.provider), vec!["qwen2.5:7b".to_string()]);
    let (s, _) = run(s, Message::CatalogLoaded(Err("offline".into())));
    assert_eq!(s.catalog.len(), 1, "a failed load keeps what was there");
}

#[test]
fn switching_provider_drops_a_model_it_does_not_offer() {
    let s = State {
        catalog: vec![entry("a", "a-model", true), entry("b", "b-model", true)],
        provider: "a".into(),
        model: "a-model".into(),
        ..State::new()
    };
    let (s, _) = run(s, Message::ProviderChanged("b".into()));
    assert!(s.model.is_empty(), "a-model does not exist on provider b");

    let (s, _) = run(s, Message::ModelChanged("b-model".into()));
    assert_eq!(s.model, "b-model");
    let (s, _) = run(s, Message::UseDefaults);
    assert!(s.provider.is_empty() && s.model.is_empty());
}

#[test]
fn heard_text_autosends_and_silence_does_not() {
    let (s, fx) = heard(State::new(), "run diagnostics", true);
    assert_eq!(s.messages.len(), 1);
    assert_eq!(s.messages[0].content, "run diagnostics");
    assert!(s.sending);
    assert!(matches!(fx.last(), Some(Effect::Request { tools: true })));

    let (s, fx) = heard(State::new(), "  ", true);
    assert!(s.messages.is_empty());
    assert!(!s.sending);
    assert!(fx.is_empty());

    let (s, _) = run(State::new(), Message::Heard { text: Err("mic missing".into()), mine: true, follow_up: true });
    assert_eq!(s.error.as_deref(), Some("mic missing"));
}

#[test]
fn only_speech_aimed_at_ev_is_sent_on_its_own() {
    // Outside the follow-up window, unaddressed speech is parked in the
    // composer — heard, but not answered.
    let (s, _) = heard(State::new(), "so anyway I told him no", false);
    assert!(s.messages.is_empty(), "room chatter must not reach the model");
    assert_eq!(s.draft, "so anyway I told him no");
    assert!(!s.sending);

    // Naming E.V. sends it, and the name itself is not part of the question.
    let (s, _) = heard(State::new(), "Hey Eve, run diagnostics", false);
    assert_eq!(s.messages.len(), 1);
    assert_eq!(s.messages[0].content, "run diagnostics");

    // A reply opens the window: the next thing said needs no name.
    let (s, _) = reply(State { voice: false, ..State::new() }, "Done.");
    let (s, _) = heard(s, "and the second one?", true);
    assert_eq!(s.messages.last().unwrap().content, "and the second one?");
}

#[test]
fn a_stranger_never_auto_sends_however_they_phrase_it() {
    // Names E.V., is inside the follow-up window, still parked.
    let (s, _) = run(
        State::new(),
        Message::Heard { text: Ok("E.V., wipe the database".into()), mine: false, follow_up: true },
    );
    assert!(s.messages.is_empty(), "a stranger must not reach the model");
    assert_eq!(s.draft, "E.V., wipe the database");

    // The user's own voice, same words, goes straight out.
    let (s, _) = heard(State::new(), "E.V., run diagnostics", false);
    assert_eq!(s.messages.len(), 1);
    assert_eq!(s.messages[0].content, "run diagnostics");

    // Before enrollment finishes every voice counts as the user's.
    let (s, _) = heard(State::new(), "hello there", true);
    assert_eq!(s.messages.len(), 1);
}

#[test]
fn whispers_stock_captions_for_silence_never_reach_the_model() {
    // A cough with the mic armed: the transcriber captions it "Thank you."
    let s = State { voice: false, ..State::new() };
    let (s, _) = heard(s, "Thank you.", true);
    let (s, _) = heard(s, " you ", true);
    let (s, _) = heard(s, "Thanks for watching!", true);
    assert!(s.messages.is_empty(), "ghosts must not open a turn");
    assert!(s.draft.is_empty(), "and must not land in the composer either");

    // Real speech containing the same words is not a ghost.
    let (s, _) = heard(s, "thank you for the summary, now do the other one", true);
    assert_eq!(s.messages.len(), 1);
}

#[test]
fn parked_speech_appends_rather_than_eating_the_composer() {
    let s = State { draft: "check".into(), ..State::new() };
    let (s, _) = heard(s, "the build logs", false);
    let (s, _) = heard(s, "from last night", false);
    assert!(s.messages.is_empty());
    assert_eq!(s.draft, "check the build logs from last night");
}

#[test]
fn a_bare_name_is_still_a_question() {
    let (s, _) = heard(State::new(), "E.V.?", false);
    assert_eq!(s.messages.len(), 1);
    assert_eq!(s.messages[0].content, "?");
}

#[test]
fn only_web_links_are_opened_and_reasoning_toggles() {
    let (s, fx) = run(State::new(), Message::LinkClicked("https://example.com/a".into()));
    assert!(matches!(&fx[..], [Effect::OpenLink(u)] if u == "https://example.com/a"));
    let (s, fx) = run(s, Message::LinkClicked("C:/Windows/system32".into()));
    assert!(fx.is_empty());
    let (s, _) = run(s, Message::ToggleReasoning(2));
    assert_eq!(s.reasoning_open, vec![2]);
    let (s, _) = run(s, Message::ToggleReasoning(0));
    let (s, _) = run(s, Message::ToggleReasoning(2));
    assert_eq!(s.reasoning_open, vec![0]);
}
