use agent_platform_desktop::coder::{
    command_of, Autonomy, Dock, Pane, Pending, PlanMode, State, Todo, Turn, TurnKind,
};
use agent_platform_desktop::coder_git::Checkpoint;
use agent_platform_desktop::coder_prompt::{
    expand_mentions, mention_candidates, mode_instruction, MAX_MODE_INSTRUCTION, MENTION_MARKER,
};
use agent_platform_desktop::coder_turn::{Effect, Event, Message, ThreadOut};
use agent_platform_desktop::json::Json;
use agent_platform_desktop::providers::ProviderEntry;

fn from_value(v: serde_json::Value) -> Json {
    match v {
        serde_json::Value::Null => Json::Null,
        serde_json::Value::Bool(b) => Json::Bool(b),
        serde_json::Value::Number(n) => Json::Number(n.to_string()),
        serde_json::Value::String(s) => Json::Str(s),
        serde_json::Value::Array(a) => Json::Array(a.into_iter().map(from_value).collect()),
        serde_json::Value::Object(m) => {
            Json::Object(m.into_iter().map(|(k, x)| (k, from_value(x))).collect())
        }
    }
}

fn json(text: &str) -> Json {
    from_value(serde_json::from_str(text).expect("test JSON"))
}

fn open_state() -> State {
    let mut s = State::with_root("D:/work/demo", false, false);
    s.thread_id = Some(7);
    s
}

/// One message through the session, the way the program around it runs it.
fn update(s: &mut State, msg: Message) -> Vec<Effect> {
    agent_platform_desktop::coder::update(s, &vec![], msg)
}

fn event(s: &mut State, e: Event) -> Vec<Effect> {
    update(s, Message::Event(e))
}

fn send(s: &mut State, text: &str) -> Vec<Effect> {
    s.draft = text.into();
    update(s, Message::Send(text.trim().into()))
}

fn tool_call(s: &mut State, path: &str) -> Vec<Effect> {
    event(
        s,
        Event::ToolCall {
            call_id: path.into(),
            name: "read_file".into(),
            arguments: json(&format!("{{\"path\": \"{path}\"}}")),
        },
    )
}

fn write_call(s: &mut State, path: &str) -> Vec<Effect> {
    event(
        s,
        Event::ToolCall {
            call_id: path.into(),
            name: "write_file".into(),
            arguments: json(&format!("{{\"path\": \"{path}\", \"content\": \"x\"}}")),
        },
    )
}

fn result(s: &mut State, content: &str) -> Vec<Effect> {
    event(s, Event::ToolResult { content: content.into() })
}

fn approval(s: &mut State, call_id: &str, args: &str) -> Vec<Effect> {
    event(
        s,
        Event::ApprovalRequired { call_id: call_id.into(), name: "run_command".into(), arguments: json(args) },
    )
}

fn results(state: &State) -> Vec<String> {
    state
        .turns
        .iter()
        .filter_map(|t| match t {
            Turn::Tool { result: Some(r), .. } => Some(r.clone().unwrap_or_else(|e| e)),
            _ => None,
        })
        .collect()
}

fn streamed_tools(fx: &[Effect]) -> Option<bool> {
    fx.iter().find_map(|e| match e {
        Effect::Stream(q) => Some(q.tools),
        _ => None,
    })
}

fn entry(id: &str, models: &[&str]) -> ProviderEntry {
    ProviderEntry { id: id.into(), configured: true, options: models.iter().map(|m| m.to_string()).collect() }
}

fn checkpoint(sha: &str, message: &str) -> Checkpoint {
    Checkpoint { sha: sha.into(), message: message.into(), when: "2 minutes ago".into() }
}

#[test]
fn switching_the_sidebar_starts_and_stops_the_tree_walk() {
    let mut s = open_state();
    let fx = update(&mut s, Message::SelectPane(Pane::Files));
    assert!(s.files_open, "the persisted flag follows the rail");
    assert!(matches!(fx.as_slice(), [Effect::RefreshTree]), "the walk starts");

    let fx = update(&mut s, Message::SelectPane(Pane::Checkpoints));
    assert!(!s.files_open);
    assert!(matches!(fx.as_slice(), [Effect::RefreshTree]), "and the walk is put away");
}

#[test]
fn a_send_needs_a_folder_and_a_prompt() {
    let mut s = State::with_root("", false, false);
    let fx = send(&mut s, "hello");
    assert!(s.turns.is_empty(), "no folder open, nothing to code against");
    assert!(fx.is_empty());

    let mut s = open_state();
    let _ = send(&mut s, "   ");
    assert!(s.turns.is_empty());

    let mut s = open_state();
    let fx = send(&mut s, "hello");
    assert!(matches!(s.turns[0], Turn::User(ref t) if t == "hello"));
    assert!(s.draft.is_empty());
    assert!(s.sending);
    assert!(matches!(fx[0], Effect::Baseline(ref r) if r == "D:/work/demo"), "the baseline comes first");
    assert!(matches!(fx.last(), Some(Effect::Stream(q)) if q.message == "hello" && q.thread_id == Some(7)));
}

#[test]
fn a_tool_call_opens_a_row_and_its_result_closes_that_row() {
    let mut s = open_state();
    let fx = tool_call(&mut s, "src/a.rs");
    assert!(matches!(&s.turns[0], Turn::Tool { label, result: None } if label == "read_file src/a.rs"));
    assert!(fx.iter().any(|e| matches!(e, Effect::RunTool { call_id, name, .. } if call_id == "src/a.rs" && name == "read_file")));
    let _ = result(&mut s, "fn main() {}");
    assert!(matches!(&s.turns[0], Turn::Tool { result: Some(Ok(r)), .. } if r == "fn main() {}"));
}

#[test]
fn an_executor_error_reads_as_a_failed_row() {
    let mut s = open_state();
    tool_call(&mut s, "nope.rs");
    let _ = result(&mut s, "Error: File not found: nope.rs");
    assert!(matches!(&s.turns[0], Turn::Tool { result: Some(Err(_)), .. }));
}

#[test]
fn a_turn_that_dies_mid_call_cannot_swallow_the_next_turns_result() {
    let mut s = open_state();
    s.sending = true;
    tool_call(&mut s, "a.rs");
    let _ = event(&mut s, Event::Failed("boom".into()));
    assert_eq!(results(&s), vec!["the turn ended before this call was answered"]);

    tool_call(&mut s, "b.rs");
    let _ = result(&mut s, "contents of b");
    assert_eq!(results(&s), vec!["the turn ended before this call was answered", "contents of b"]);
}

#[test]
fn stopping_closes_the_open_row_and_clears_what_the_turn_was_holding() {
    let mut s = open_state();
    s.sending = true;
    tool_call(&mut s, "a.rs");
    assert_eq!(s.outstanding.as_deref(), Some("a.rs"), "the server is parked on this call");

    let fx = update(&mut s, Message::Stop);
    assert!(!s.sending);
    assert!(s.stopped);
    assert_eq!(results(&s), vec!["stopped by you"], "not blamed on the turn or the model");
    assert!(s.outstanding.is_none(), "answered on the way out, so nothing is owed twice");
    assert!(fx.iter().any(|e| matches!(e, Effect::Abort)));
    assert!(fx.iter().any(|e| matches!(e, Effect::Unblock { call_id, .. } if call_id == "a.rs")));

    let _ = event(&mut s, Event::Done);
    assert!(s.error.is_none());
    let _ = event(&mut s, Event::Assistant("late answer".into()));
    assert_eq!(s.turns.len(), 1, "a stopped turn takes no more rows");

    let fx = update(&mut s, Message::Stop);
    assert_eq!(results(&s), vec!["stopped by you"]);
    assert!(fx.is_empty());

    let _ = send(&mut s, "again");
    assert!(!s.stopped);
    assert!(s.sending);
}

#[test]
fn follow_ups_typed_during_a_turn_run_in_order_after_it() {
    let mut s = open_state();
    let _ = send(&mut s, "first");
    assert!(s.sending);

    for text in ["second", "third"] {
        let _ = send(&mut s, text);
    }
    assert_eq!(s.queue, vec!["second", "third"], "in the order they were typed");
    assert!(s.draft.is_empty(), "the box is emptied, so the next one can be typed");
    assert_eq!(s.turns.len(), 1, "queued follow-ups are not turns yet");

    let _ = event(&mut s, Event::Done);
    assert!(s.draft.is_empty(), "still waiting on the checkpoint");
    assert_eq!(s.queue.len(), 2);

    let fx = update(&mut s, Message::Committed(Ok(false)));
    assert_eq!(s.draft, "second");
    assert_eq!(s.queue, vec!["third"]);
    assert!(fx.iter().any(|e| matches!(e, Effect::Send)), "the program sends the draft next");

    let _ = update(&mut s, Message::Send("second".into()));
    assert!(s.sending);
    assert!(matches!(&s.turns[1], Turn::User(t) if t == "second"));
}

#[test]
fn a_stop_leaves_the_queue_alone_and_a_chip_goes_back_to_the_composer() {
    let mut s = open_state();
    let _ = send(&mut s, "go");
    let _ = send(&mut s, "and also this");

    let _ = update(&mut s, Message::Stop);
    let _ = update(&mut s, Message::Committed(Ok(true)));
    assert_eq!(s.queue, vec!["and also this"], "a stopped turn does not run the next one");
    assert!(s.draft.is_empty());

    let _ = update(&mut s, Message::Unqueue(0));
    assert!(s.queue.is_empty());
    assert_eq!(s.draft, "and also this");
    let _ = update(&mut s, Message::Unqueue(3));
    assert_eq!(s.draft, "and also this");
}

#[test]
fn stop_and_send_puts_the_correction_at_the_front() {
    let mut s = open_state();
    let _ = send(&mut s, "do the thing");
    let _ = send(&mut s, "then tidy up");

    s.draft = "no \u{2014} stop, do it the other way".into();
    let _ = update(&mut s, Message::StopAndSend);
    assert!(!s.sending, "the turn it was steering away from is over");
    assert_eq!(s.queue, vec!["no \u{2014} stop, do it the other way", "then tidy up"]);

    let _ = update(&mut s, Message::Committed(Ok(true)));
    assert_eq!(s.draft, "no \u{2014} stop, do it the other way", "the correction goes first");
    assert_eq!(s.queue, vec!["then tidy up"]);

    let mut s = open_state();
    let _ = send(&mut s, "x");
    s.draft.clear();
    let _ = update(&mut s, Message::StopAndSend);
    assert!(s.sending, "an empty steer is not a stop");
}

#[test]
fn follow_mode_opens_the_file_the_turn_just_wrote() {
    let mut s = open_state();
    s.follow = true;

    let _ = write_call(&mut s, "a.rs");
    assert!(s.viewing.is_none(), "not until the write has actually happened");
    let fx = result(&mut s, "Wrote a.rs");
    let path = fx
        .iter()
        .find_map(|e| match e {
            Effect::ReadFile { path, focus: true } => Some(path.clone()),
            _ => None,
        })
        .expect("the written file is read for the dock");
    assert!(path.ends_with("a.rs"));
    let _ = update(&mut s, Message::Viewed { path, text: Ok("x".into()), focus: true });
    assert!(matches!(&s.viewing, Some((p, _)) if p.ends_with("a.rs")));
    assert_eq!(s.dock, Dock::File, "and the dock is on it");

    s.viewing = None;
    let _ = write_call(&mut s, "a.rs");
    let fx = result(&mut s, "Error: Path escapes the workspace root and was blocked: a.rs");
    assert!(!fx.iter().any(|e| matches!(e, Effect::ReadFile { .. })));

    let _ = tool_call(&mut s, "a.rs");
    let fx = result(&mut s, "fn main() {}");
    assert!(!fx.iter().any(|e| matches!(e, Effect::ReadFile { .. })), "a read is not a write");

    let _ = update(&mut s, Message::ToggleFollow(false));
    let _ = write_call(&mut s, "a.rs");
    let fx = result(&mut s, "Wrote a.rs");
    assert!(!fx.iter().any(|e| matches!(e, Effect::ReadFile { .. })));
}

#[test]
fn stopping_does_nothing_while_a_decision_is_outstanding() {
    let mut s = open_state();
    s.pending = Some(Pending { call_id: "c1".into(), command: "cargo test".into() });
    let _ = update(&mut s, Message::Stop);
    assert!(s.pending.is_some(), "the decision is still the server's to hear");
    assert!(!s.stopped);
}

#[test]
fn restoring_a_checkpoint_takes_two_presses() {
    let mut s = open_state();
    let _ = update(
        &mut s,
        Message::CheckpointsLoaded(Ok(vec![
            checkpoint("aaaaaaaa1111", "bump the version"),
            checkpoint("bbbbbbbb2222", "baseline"),
        ])),
    );
    assert_eq!(s.checkpoints.len(), 2);

    let _ = update(&mut s, Message::ReviewCheckpoint("aaaaaaaa1111".into()));
    assert!(matches!(&s.reviewing, Some((sha, None)) if sha == "aaaaaaaa1111"), "opens empty");
    let _ = update(&mut s, Message::DiffLoaded(Ok("+two\n-one".into())));
    assert!(matches!(&s.reviewing, Some((_, Some(d))) if d.contains("+two")));

    let fx = update(&mut s, Message::RestoreCheckpoint("aaaaaaaa1111".into()));
    assert_eq!(s.restore_armed.as_deref(), Some("aaaaaaaa1111"), "armed, not fired");
    assert!(fx.is_empty());
    let _ = update(&mut s, Message::ReviewCheckpoint("bbbbbbbb2222".into()));
    assert_eq!(s.restore_armed, None);

    let _ = update(&mut s, Message::RestoreCheckpoint("bbbbbbbb2222".into()));
    let fx = update(&mut s, Message::RestoreCheckpoint("bbbbbbbb2222".into()));
    assert_eq!(s.restore_armed, None, "fired, and disarmed behind itself");
    assert!(fx.iter().any(|e| matches!(e, Effect::Restore { sha, .. } if sha == "bbbbbbbb2222")));

    let _ = update(&mut s, Message::CloseReview);
    assert!(s.reviewing.is_none());
}

#[test]
fn a_terminal_needs_a_folder_and_ends_when_the_drawer_closes() {
    let mut s = State::with_root("", false, false);
    let fx = update(&mut s, Message::ToggleTerminal);
    assert!(fx.is_empty(), "no folder, nothing to open a shell in");
    assert!(!s.term_open);
    let fx = update(&mut s, Message::SendToTerminal("cargo test".into()));
    assert!(!fx.iter().any(|e| matches!(e, Effect::OpenTerminal(_))));

    let mut s = open_state();
    let fx = update(&mut s, Message::ToggleTerminal);
    assert!(matches!(fx.as_slice(), [Effect::OpenTerminal(r)] if r == "D:/work/demo"), "a shell in the workspace root");
    let _ = update(&mut s, Message::TerminalOpened(Ok(())));
    assert!(s.term_open);

    let fx = update(&mut s, Message::ToggleTerminal);
    assert!(!s.term_open);
    assert!(matches!(fx.as_slice(), [Effect::CloseTerminal]), "closing ends the shell rather than hiding it");
}

#[test]
fn reopening_never_reuses_a_terminal_id() {
    let mut s = open_state();
    let _ = update(&mut s, Message::ToggleTerminal);
    let _ = update(&mut s, Message::TerminalOpened(Ok(())));
    let _ = update(&mut s, Message::ToggleTerminal);
    assert!(!s.term_open);
    let fx = update(&mut s, Message::SendToTerminal("cargo test".into()));
    assert!(matches!(fx.as_slice(), [Effect::OpenTerminal(_), Effect::TypeInTerminal(c)] if c == "cargo test"),
        "sending opens a fresh shell first, so a command never lands nowhere");
}

#[test]
fn the_file_pane_walks_only_what_is_open() {
    let mut s = open_state();
    let fx = update(&mut s, Message::ToggleFiles);
    assert!(s.files_open);
    assert!(matches!(fx.as_slice(), [Effect::RefreshTree]));

    let _ = update(&mut s, Message::Viewed { path: "D:/work/demo/src/app.rs".into(), text: Ok("fn main() {}".into()), focus: true });
    assert!(matches!(&s.viewing, Some((_, Ok(t))) if t == "fn main() {}"));

    let _ = update(&mut s, Message::ToggleFiles);
    assert!(!s.files_open);
    let _ = update(&mut s, Message::ToggleFiles);
    assert!(s.files_open);

    let _ = update(&mut s, Message::CloseFile);
    assert!(s.viewing.is_none());
}

#[test]
fn a_checkpoint_failure_is_not_a_turn_failure() {
    let mut s = open_state();
    let _ = update(&mut s, Message::Committed(Err("could not run git \u{2014} is it installed?".into())));
    assert!(s.checkpoint_error.as_deref().unwrap().contains("git"));
    assert_eq!(s.error, None, "the banner means the turn went wrong");

    let _ = update(&mut s, Message::CheckpointsLoaded(Ok(vec![])));
    assert_eq!(s.checkpoint_error, None);
}

#[test]
fn a_plan_is_a_row_but_not_an_answer() {
    let mut s = open_state();
    s.plan_mode = PlanMode::Inline;
    let _ = send(&mut s, "add a test");
    let _ = event(&mut s, Event::Plan("1. read it".into()));
    assert!(matches!(&s.turns[1], Turn::Assistant(text) if text == "1. read it"));

    let _ = event(&mut s, Event::Done);
    assert!(
        s.error.as_deref().unwrap_or_default().contains("without replying"),
        "a plan is not an answer: {:?}",
        s.error
    );

    let mut s = open_state();
    let _ = event(&mut s, Event::Plan("  ".into()));
    assert!(s.turns.is_empty());
}

#[test]
fn the_gate_plans_tool_free_then_runs_the_edited_plan() {
    let mut s = open_state();
    s.plan_mode = PlanMode::Gate;

    let fx = send(&mut s, "add a test");
    assert!(matches!(&s.turns[0], Turn::User(t) if t == "add a test"), "the row is what was typed");
    assert_eq!(streamed_tools(&fx), Some(false), "a planning turn that can edit is not a gate");
    assert!(mode_instruction(&s.root, s.kind, "", None).unwrap().contains("plan and nothing else"));

    let _ = event(&mut s, Event::Assistant("1. read it".into()));
    let _ = event(&mut s, Event::Done);
    let card = s.plan_card.clone().expect("the plan turn ends on the card");
    assert_eq!(card.trim(), "1. read it");
    assert!(s.would_queue(), "the composer queues while the plan waits on the user");

    let _ = update(&mut s, Message::PlanEdited("1. read it\n2. and the docs".into()));
    let prompt = s.plan_prompt().expect("a plan to run");
    let fx = update(&mut s, Message::PlanRun(prompt));
    let last = match s.turns.last() {
        Some(Turn::User(t)) => t.clone(),
        other => panic!("the run turn is a user row: {other:?}"),
    };
    assert!(last.contains("2. and the docs"), "the edited plan is what runs: {last}");
    assert_eq!(streamed_tools(&fx), Some(true), "the run turn has the tools the plan needs");
    assert!(!mode_instruction(&s.root, s.kind, "", None).unwrap().contains("plan and nothing else"));
    assert!(
        matches!(&fx[0], Effect::WritePlan { root, plan } if root == "D:/work/demo" && plan == "1. read it\n2. and the docs"),
        "the plan is also a file the user can open in their own editor"
    );
}

#[test]
fn a_mentioned_file_rides_in_the_message_it_was_mentioned_in() {
    let prompt = "@src/app.rs and @src/app.rs, what does boot do?";
    assert_eq!(mention_candidates(prompt), vec!["src/app.rs"], "the same file twice is once");
    let out = expand_mentions(prompt, &vec![("src/app.rs".to_string(), "fn boot() {}\n".to_string())]);
    assert!(out.starts_with(prompt));
    assert_eq!(out.matches("fn boot() {}").count(), 1);
    assert!(out.contains(MENTION_MARKER));

    let plain = "ask @tanveer about @src/missing.rs";
    assert_eq!(mention_candidates(plain), vec!["tanveer", "src/missing.rs"]);
    assert_eq!(expand_mentions(plain, &vec![]), plain, "nothing found, nothing added");
}

#[test]
fn a_silent_plan_turn_leaves_no_card_to_run() {
    let mut s = open_state();
    s.plan_mode = PlanMode::Gate;
    let _ = send(&mut s, "add a test");
    let _ = event(&mut s, Event::Assistant("1. read it".into()));
    let _ = event(&mut s, Event::Done);
    assert!(s.plan_card.is_some());

    let _ = update(&mut s, Message::PlanDiscard);
    let _ = send(&mut s, "and the docs too");
    let _ = event(&mut s, Event::Done);
    assert!(s.plan_card.is_none(), "the previous plan is not this turn's");
    assert!(s.error.as_deref().unwrap_or_default().contains("without replying"));
}

#[test]
fn the_notes_and_the_plan_ask_together_still_fit_the_field() {
    let mut s = open_state();
    s.kind = TurnKind::Plan;
    let notes = "x".repeat(50_000);
    let block = mode_instruction(&s.root, s.kind, &notes, None).unwrap();
    assert!(block.chars().count() <= MAX_MODE_INSTRUCTION, "{}", block.chars().count());
    assert!(
        mode_instruction(&s.root, s.kind, "short notes", Some("the project's rules"))
            .unwrap()
            .contains("plan and nothing else"),
        "the ask goes last"
    );

    s.kind = TurnKind::Work;
    assert!(!mode_instruction(&s.root, s.kind, "", None).unwrap().contains("plan and nothing else"));
    assert_eq!(mode_instruction(&None, TurnKind::Plan, "notes", None), None, "no folder, no block");
}

#[test]
fn a_checklist_call_is_answered_without_the_executor() {
    let mut s = open_state();
    let args = r#"{"items": [
        {"text": "read the module", "done": true},
        {"text": "add the test", "done": false},
        {"text": "", "done": false}
    ]}"#;
    let fx = event(
        &mut s,
        Event::ToolCall { call_id: "c1".into(), name: "update_todos".into(), arguments: json(args) },
    );
    assert_eq!(
        s.todos,
        vec![
            Todo { text: "read the module".into(), done: true },
            Todo { text: "add the test".into(), done: false },
        ],
    );
    assert_eq!(s.outstanding.as_deref(), Some("c1"), "the server is parked on it like any other");
    assert!(matches!(&s.turns[0], Turn::Tool { label, .. } if label == "todos 1/2"));
    assert!(fx.iter().any(|e| matches!(e, Effect::ToolRan { call_id, result } if call_id == "c1" && result == "Checklist updated: 1/2 done.")));
}

#[test]
fn a_turn_that_says_nothing_says_so() {
    let mut s = open_state();
    let _ = send(&mut s, "do a thing");
    tool_call(&mut s, "a.rs");
    let _ = result(&mut s, "x");
    let _ = event(&mut s, Event::Assistant(String::new()));
    let _ = event(&mut s, Event::Done);
    assert!(!s.sending);
    assert!(
        s.error.as_deref().unwrap_or_default().contains("without replying"),
        "a silent turn must not render as nothing: {:?}",
        s.error
    );

    let mut s = open_state();
    let _ = send(&mut s, "again");
    let _ = event(&mut s, Event::Assistant("Done.".into()));
    let _ = event(&mut s, Event::Done);
    assert_eq!(s.error, None);
}

#[test]
fn switching_provider_drops_a_model_the_new_one_does_not_have() {
    let mut s = open_state();
    let _ = update(
        &mut s,
        Message::CatalogLoaded(Ok(vec![
            entry("ollama", &["gemma4:latest"]),
            entry("lm_studio", &["qwen/qwen3-coder-30b"]),
        ])),
    );
    let _ = update(&mut s, Message::ModelChanged("gemma4:latest".into()));
    let _ = update(&mut s, Message::ProviderChanged("lm_studio".into()));
    assert!(s.model.is_empty(), "an ollama alias sent at LM Studio crashes llama-server");
    assert_eq!(s.model_options(), vec!["qwen/qwen3-coder-30b"]);
}

#[test]
fn reopening_a_session_restores_the_model_it_was_answered_on() {
    let mut s = open_state();
    s.provider = "ollama".into();
    s.model = "gemma4:latest".into();
    s.catalog = vec![entry("lm_studio", &["qwen/qwen3-coder-30b"])];
    let _ = update(
        &mut s,
        Message::ThreadLoaded(Ok(ThreadOut {
            thread_id: 7,
            workspace_root: None,
            model: Some("qwen/qwen3-coder-30b".into()),
            messages: vec![],
        })),
    );
    assert_eq!(s.model, "qwen/qwen3-coder-30b");
    assert_eq!(s.provider, "lm_studio", "the provider comes back off the catalog");

    let _ = update(
        &mut s,
        Message::ThreadLoaded(Ok(ThreadOut { thread_id: 8, workspace_root: None, model: None, messages: vec![] })),
    );
    assert_eq!(s.model, "qwen/qwen3-coder-30b");
}

#[test]
fn an_allowed_command_runs_without_a_card_and_the_row_says_which_rule() {
    let mut s = open_state();
    s.sending = true;
    s.autonomy = Autonomy::Allowlist;
    s.allow_rule("cargo test".into());
    let fx = approval(&mut s, "c1", r#"{"command": "cargo test --lib"}"#);
    assert!(s.pending.is_none(), "a rule answered it; nothing is waiting on the user");
    assert!(s.sending, "the turn carried on");
    assert!(fx.iter().any(|e| matches!(e, Effect::Resume(d) if d.approve && d.call_id == "c1")));

    let _ = event(
        &mut s,
        Event::ToolCall {
            call_id: "c1".into(),
            name: "run_command".into(),
            arguments: json(r#"{"command": "cargo test --lib"}"#),
        },
    );
    match s.turns.last() {
        Some(Turn::Tool { label, .. }) => {
            assert!(label.contains("cargo test --lib"), "got {label:?}");
            assert!(label.contains("allowed by rule"), "an unread approval must say so: {label:?}");
        }
        other => panic!("expected the command's row, got {other:?}"),
    }

    let mut s = open_state();
    s.sending = true;
    s.autonomy = Autonomy::Allowlist;
    s.allow_rule("cargo test".into());
    let _ = approval(&mut s, "c2", r#"{"command": "cargo publish"}"#);
    assert!(s.pending.is_some(), "an unmatched command is still a card");
}

#[test]
fn always_allow_saves_the_rule_for_this_folder_and_turns_the_tier_on() {
    let mut s = open_state();
    s.sending = true;
    s.autonomy = Autonomy::Ask;
    let _ = approval(&mut s, "c1", r#"{"command": "cargo test --lib"}"#);
    let _ = update(&mut s, Message::AlwaysAllow);
    assert_eq!(s.rules(), ["cargo test"], "the rule is the verb, not the whole line");
    assert_eq!(s.autonomy, Autonomy::Allowlist, "a rule nothing consults does nothing");
    let saved: Vec<usize> =
        s.allowlist.iter().filter(|(k, _)| k == "D:/work/demo").map(|(_, v)| v.len()).collect();
    assert_eq!(saved, vec![1], "rules are the folder's, not the app's");

    let _ = update(
        &mut s,
        Message::RootPicked { path: "D:/work/other".into(), agents_md: false, git_repo: false },
    );
    assert!(s.rules().is_empty(), "a folder you just opened has approved nothing");
}

#[test]
fn a_handoff_starts_the_next_session_with_what_this_one_learned() {
    let mut s = open_state();
    s.turns.push(Turn::User("the long conversation".into()));

    let fx = update(&mut s, Message::Fork);
    assert!(s.sending);
    assert_eq!(streamed_tools(&fx), Some(false), "a handoff has nothing to run");

    s.answered = true;
    s.turns.push(Turn::Assistant("Goal: ship X. Done: Y.".into()));
    let _ = event(&mut s, Event::Done);

    assert_eq!(s.draft, "Goal: ship X. Done: Y.", "typed, not sent; it is editable");
    assert_eq!(s.thread_id, None, "the next send opens a thread of its own");
    assert!(s.turns.is_empty(), "a fresh session, not the old one with a summary in it");
    assert_eq!(s.root.as_deref(), Some("D:/work/demo"), "same folder");
    assert_eq!(s.error, None);
}

#[test]
fn an_empty_handoff_leaves_the_session_standing() {
    let mut s = open_state();
    s.turns.push(Turn::User("the long conversation".into()));
    let _ = update(&mut s, Message::Fork);

    let _ = event(&mut s, Event::Done);
    assert_eq!(s.thread_id, Some(7), "the session is still the one it was");
    assert!(s.error.is_some(), "and it says why nothing happened");
}

#[test]
fn the_review_pass_hands_the_diff_back_tool_free() {
    let mut s = open_state();
    let fx = update(&mut s, Message::ReviewDiffLoaded(Ok("@@ -1,3 +1,3 @@\n-old\n+new".into())));
    assert!(s.sending, "the review is a turn like any other");
    assert_eq!(streamed_tools(&fx), Some(false), "a review that can edit is not a review");
    assert!(s.in_flight.contains("+new"), "the patch is the message");
    assert!(!s.in_flight.contains(MENTION_MARKER), "a hunk header is not an @mention");
    match s.turns.last() {
        Some(Turn::User(text)) => assert!(text.contains("Review this diff")),
        other => panic!("expected the review's own row, got {other:?}"),
    }
}

#[test]
fn the_review_pass_waits_for_the_turn_it_is_about() {
    let mut s = open_state();
    s.sending = true;
    let fx = update(&mut s, Message::ReviewTurn("abc123".into()));
    assert_eq!(s.turns.len(), 0, "nothing was asked while the turn was still running");
    assert!(fx.is_empty());
}

#[test]
fn the_stream_closing_behind_an_approval_is_not_a_dead_turn() {
    let mut s = open_state();
    s.sending = true;
    s.autonomy = Autonomy::Ask;
    let _ = approval(&mut s, "c1", r#"{"command": "cargo test"}"#);
    let _ = event(&mut s, Event::Done);
    assert!(s.pending.is_some(), "the decision is still outstanding");
    assert_eq!(s.error, None, "waiting on a human is not a silent turn");
}

#[test]
fn an_approval_pause_stops_the_turn_until_it_is_decided() {
    let mut s = open_state();
    s.sending = true;
    s.autonomy = Autonomy::Ask;
    let _ = approval(&mut s, "c9", r#"{"command": "rm -rf ."}"#);
    assert!(!s.sending, "nothing is in flight while it waits on a human");
    assert_eq!(s.pending.as_ref().unwrap().command, "rm -rf .");
    assert!(s.turns.is_empty());
    let _ = send(&mut s, "never mind");
    assert_eq!(s.queue, vec!["never mind"]);
    assert!(!s.sending, "still the user's move");

    let fx = update(&mut s, Message::Decide(false));
    assert!(s.sending);
    assert!(fx.iter().any(|e| matches!(e, Effect::Resume(d) if !d.approve && d.call_id == "c9")));
    let _ = event(&mut s, Event::Done);
    assert!(s.pending.is_none());
    assert!(
        matches!(&s.turns[0], Turn::Tool { label, result: Some(Err(e)) }
            if label == "$ rm -rf ." && e.contains("refused"))
    );
}

#[test]
fn with_commands_off_the_user_is_never_asked() {
    let mut s = open_state();
    s.sending = true;
    assert!(!s.autonomy.allows_commands());
    let _ = approval(&mut s, "c9", r#"{"command": "cargo test"}"#);
    assert!(s.pending.is_none(), "no card for a decision that is already made");
    assert!(
        matches!(&s.turns[0], Turn::Tool { label, result: Some(Err(e)) }
            if label == "$ cargo test" && e.contains("commands are off"))
    );

    let _ = event(&mut s, Event::Done);
    let banner = s.error.clone().unwrap_or_default();
    assert!(banner.contains("commands are off"), "{banner}");
    assert!(!banner.contains("tool loop"), "{banner}");
}

#[test]
fn a_call_with_no_command_in_it_leaves_nothing_to_approve() {
    let mut s = open_state();
    s.sending = true;
    s.autonomy = Autonomy::Ask;
    let _ = approval(&mut s, "c1", "{}");
    assert_eq!(s.pending.as_ref().unwrap().command, "", "the view hides Run on this");
    assert_eq!(command_of(&json(r#"{"command": "  "}"#)), "");
    assert_eq!(command_of(&json(r#"{"command": " ls "}"#)), "ls");

    let _ = update(&mut s, Message::Decide(false));
    assert!(matches!(&s.turns[0], Turn::Tool { label, .. } if label.contains("unreadable")));
}

#[test]
fn a_decision_that_never_reached_the_server_can_be_answered_again() {
    let mut s = open_state();
    s.sending = true;
    s.autonomy = Autonomy::Ask;
    let _ = approval(&mut s, "c9", r#"{"command": "cargo test"}"#);
    let _ = update(&mut s, Message::Decide(true));
    assert!(s.pending.is_some(), "still outstanding until the server says otherwise");
    assert!(s.sending, "but the card is hidden while it is in flight");

    let _ = event(&mut s, Event::Failed("no route".into()));
    assert!(s.pending.is_some(), "the card comes back so it can be retried");
    assert!(!s.sending);
    assert!(s.error.as_deref().unwrap_or_default().contains("Answer it again"));

    let _ = update(&mut s, Message::Decide(true));
    let _ = event(
        &mut s,
        Event::ToolCall {
            call_id: "c9".into(),
            name: "run_command".into(),
            arguments: json(r#"{"command": "cargo test"}"#),
        },
    );
    assert!(s.pending.is_none(), "answered for real now");
}

#[test]
fn approving_leaves_the_row_to_the_resumed_turn() {
    let mut s = open_state();
    s.sending = true;
    s.autonomy = Autonomy::Ask;
    let _ = approval(&mut s, "c9", r#"{"command": "cargo test"}"#);
    let _ = update(&mut s, Message::Decide(true));
    assert!(s.turns.is_empty(), "approving adds nothing on its own");

    let _ = event(
        &mut s,
        Event::ToolCall {
            call_id: "c9".into(),
            name: "run_command".into(),
            arguments: json(r#"{"command": "cargo test"}"#),
        },
    );
    assert_eq!(s.turns.len(), 1, "one row for one command");
}

#[test]
fn the_clock_only_runs_while_a_turn_does() {
    let mut s = open_state();
    let _ = send(&mut s, "go");
    for _ in 0..3 {
        let _ = update(&mut s, Message::Tick);
    }
    assert_eq!(s.elapsed, 3);
    let _ = event(&mut s, Event::Done);
    let _ = update(&mut s, Message::Tick);
    assert_eq!(s.elapsed, 3, "a finished turn stops counting");

    s.pending = Some(Pending { call_id: "c1".into(), command: "pytest".into() });
    let _ = update(&mut s, Message::Tick);
    assert_eq!(s.elapsed, 4, "the clock runs while it waits on a human");
    s.pending = None;

    let _ = send(&mut s, "again");
    assert_eq!(s.elapsed, 0);
}

#[test]
fn reopening_a_session_follows_its_folder_and_thread() {
    let mut s = State::with_root("D:/work/first", false, false);
    let _ = update(
        &mut s,
        Message::ThreadLoaded(Ok(ThreadOut {
            thread_id: 42,
            workspace_root: Some("D:/work/second".into()),
            model: None,
            messages: vec![json(r#"{"role": "user", "content": "hi"}"#)],
        })),
    );
    assert_eq!(s.thread_id, Some(42));
    assert_eq!(s.root.as_deref(), Some("D:/work/second"), "the root travels with it");
    assert_eq!(s.turns.len(), 1);

    s.threads = vec![];
    let fx = update(&mut s, Message::DeleteThread(42));
    assert_eq!(s.delete_armed, Some(42), "first press only arms");
    assert_eq!(s.thread_id, Some(42));
    assert!(fx.is_empty());
    let fx = update(&mut s, Message::DeleteThread(42));
    assert_eq!(s.thread_id, None);
    assert_eq!(s.delete_armed, None);
    assert!(fx.iter().any(|e| matches!(e, Effect::DeleteThread(42))));
}

#[test]
fn changing_folder_starts_a_new_thread_but_keeps_the_command_setting() {
    let mut s = open_state();
    s.autonomy = Autonomy::Ask;
    s.turns.push(Turn::User("old".into()));
    let _ = update(&mut s, Message::RootPicked { path: "D:/work/other".into(), agents_md: false, git_repo: false });
    assert_eq!(s.thread_id, None, "the old thread names the old workspace root");
    assert!(s.turns.is_empty());
    assert!(s.autonomy.allows_commands());
    assert_eq!(s.root.as_deref(), Some("D:/work/other"));
}

#[test]
fn a_frame_after_a_stop_is_dropped_whole() {
    let mut s = open_state();
    let _ = send(&mut s, "go");
    let _ = update(&mut s, Message::Stop);
    let turns = s.turns.len();
    let fx = update(&mut s, Message::ToolRan { call_id: "late".into(), result: "x".into() });
    assert!(fx.is_empty());
    assert_eq!(s.turns.len(), turns);
}
