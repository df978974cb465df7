use agent_platform_desktop::agenda_chat::{
    applied_notice, ellipsize, opens_link, ChatMessage, ChatThread, Effect, FormField, Message,
    PlanningForm, State, ThreadSummary,
};
use agent_platform_desktop::json::Json;

fn field(id: &str, required: bool) -> FormField {
    FormField { id: id.into(), required, default: None }
}

fn form(fields: Vec<FormField>) -> PlanningForm {
    PlanningForm { domain: Some("fitness".into()), fields }
}

fn open(form: Option<PlanningForm>) -> State {
    let mut state = State::new();
    state.open = true;
    state.project = Some(1);
    state.seed_form(form);
    state
}

fn message(role: &str, content: &str) -> ChatMessage {
    ChatMessage { role: role.into(), content: content.into() }
}

fn is_str(j: Option<&Json>, s: &str) -> bool {
    matches!(j, Some(Json::Str(x)) if x == s)
}

#[test]
fn defaults_seed_the_answers_but_blank_ones_do_not() {
    let mut filled = field("sex", false);
    filled.default = Some(Json::Str("a".into()));
    let mut blank = field("notes", false);
    blank.default = Some(Json::Str("".into()));
    let state = open(Some(form(vec![filled, blank])));
    assert!(is_str(state.answer("sex"), "a"));
    assert!(state.answer("notes").is_none(), "an empty default is not an answer");
}

#[test]
fn a_new_form_clears_the_old_answers() {
    let mut state = open(Some(form(vec![field("sex", false)])));
    let _ = state.update(Message::SetText("sex".into(), "x".into()));
    assert!(is_str(state.answer("sex"), "x"));
    state.seed_form(Some(form(vec![field("age", false)])));
    assert!(state.answers.is_empty());
}

#[test]
fn required_fields_gate_the_submit() {
    let mut state = open(Some(form(vec![field("sex", true)])));
    assert!(!state.form_ready());
    let _ = state.update(Message::SetText("sex".into(), "  ".into()));
    assert!(!state.form_ready(), "whitespace is not an answer");
    let _ = state.update(Message::SetText("sex".into(), "male".into()));
    assert!(state.form_ready());
}

#[test]
fn multi_select_toggles_both_ways() {
    let mut state = open(Some(form(vec![field("equipment", false)])));
    let _ = state.update(Message::ToggleOption("equipment".into(), "a".into()));
    assert!(state.picked("equipment", "a"));
    let _ = state.update(Message::ToggleOption("equipment".into(), "a".into()));
    assert!(!state.picked("equipment", "a"));
}

#[test]
fn sending_shows_the_user_turn_immediately() {
    let mut state = State::new();
    state.open = true;
    state.project = Some(1);
    state.draft = " plan my week ".into();
    let fx = state.update(Message::Send);
    assert_eq!(state.messages.len(), 1);
    assert_eq!(state.messages[0].content, "plan my week");
    assert!(state.draft.is_empty());
    assert!(state.sending);
    match fx {
        Effect::Send { project, text, thread } => {
            assert_eq!(project, 1);
            assert_eq!(text, "plan my week");
            assert_eq!(thread, None);
        }
        other => panic!("expected a send, got {other:?}"),
    }
}

#[test]
fn a_second_send_is_ignored_while_one_is_in_flight() {
    let mut state = State::new();
    state.open = true;
    state.project = Some(1);
    state.draft = "hi".into();
    state.sending = true;
    let fx = state.update(Message::Send);
    assert!(state.messages.is_empty());
    assert_eq!(state.draft, "hi");
    assert!(matches!(fx, Effect::Nothing));
}

#[test]
fn a_reply_replaces_the_local_transcript() {
    let mut state = State::new();
    state.open = true;
    state.project = Some(1);
    state.draft = "hi".into();
    let _ = state.update(Message::Send);
    let thread = ChatThread {
        thread_id: Some(4),
        messages: vec![message("user", "hi"), message("assistant", "hello")],
        pending: Vec::new(),
        form: None,
        usage: None,
    };
    let _ = state.update(Message::Turned(Ok(thread)));
    assert_eq!(state.messages.len(), 2);
    assert_eq!(state.thread_id, Some(4));
    assert!(!state.sending);
}

#[test]
fn thread_labels_stay_one_line() {
    let thread = |title: &str, preview: &str| ThreadSummary {
        id: 1,
        title: title.into(),
        preview: preview.into(),
    };
    let mut state = State::new();
    state.threads = vec![
        thread("Weekly review routine", "add a task to review my week"),
        thread("New chat", "something I typed before it was titled"),
        thread(&"x".repeat(80), ""),
    ];
    let labels: Vec<String> = state.options().into_iter().map(|o| o.label).collect();
    assert_eq!(labels[0], "Weekly review routine", "the title carries it alone");
    assert!(labels[1].starts_with("something I typed"), "an untitled thread falls back");
    assert!(labels[2].chars().count() <= 45);
}

#[test]
fn retry_targets_the_last_user_turn() {
    let mut state = State::new();
    for (role, content) in [("user", "a"), ("assistant", "b"), ("user", "c"), ("assistant", "d")] {
        state.messages.push(message(role, content));
    }
    assert_eq!(state.last_user_index(), Some(2));
}

#[test]
fn changing_project_drops_the_thread() {
    let mut state = State::new();
    state.open = true;
    state.project = Some(1);
    state.thread_id = Some(9);
    state.messages.push(message("user", "x"));
    let fx = state.set_project(Some(2));
    assert_eq!(state.thread_id, None);
    assert!(state.messages.is_empty());
    assert!(matches!(fx, Effect::Reload { project: 2, thread: None }));
}

#[test]
fn ellipsize_cuts_and_marks_the_cut() {
    assert_eq!(ellipsize("abcdef", 3), "abc\u{2026}");
    assert_eq!(ellipsize("abc", 3), "abc");
    assert_eq!(ellipsize("", 0), "");
}

#[test]
fn only_web_links_open() {
    assert!(opens_link("https://example.com/a"));
    assert!(opens_link("http://example.com"));
    assert!(!opens_link("file:///etc/passwd"));
    assert!(!opens_link("javascript:alert(1)"));
}

#[test]
fn the_notice_says_what_was_applied_and_skipped() {
    let n = applied_notice(&vec!["a".into(), "b".into()], &vec!["c".into()], &vec!["go on".into()]);
    assert_eq!(n.as_deref(), Some("Applied: a; b Skipped: c go on"));
    assert_eq!(applied_notice(&vec![], &vec![], &vec![]), None);
}
