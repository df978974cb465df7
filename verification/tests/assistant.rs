use agent_platform_desktop::assistant::{
    busy_of, command_of, command_output, failed_to_start, mode_label, mode_of, non_empty,
    salvage_calls, speech_rate, timed_out, tool_plan, Mode, ToolCall, RATE_SPAN,
};
use agent_platform_desktop::assistant_tools::{
    run_sync_tool, screen_named, screens, tool_names, tools_spec, Pending, Screen, Sync,
};
use agent_platform_desktop::json::Json;
use agent_platform_desktop::providers::{choose_provider, configured_only, ProviderEntry};

fn call(name: &str, arguments: &str) -> ToolCall {
    ToolCall { id: "c1".into(), name: name.into(), arguments: arguments.into() }
}

fn entry(id: &str, model: &str, configured: bool) -> ProviderEntry {
    ProviderEntry { id: id.into(), configured, options: vec![model.into()] }
}

#[test]
fn every_screen_in_the_spec_resolves_to_a_real_one() {
    for screen in screens() {
        assert_eq!(screen_named(screen.name()), Some(screen), "{}", screen.name());
    }
    assert_eq!(screen_named("Teams"), Some(Screen::Teams), "case is not the user's problem");
    assert_eq!(screen_named("nowhere"), None);
}

#[test]
fn a_bad_screen_is_answered_not_dropped() {
    let Sync::Answered(text) = run_sync_tool("1", "open_screen", r#"{"screen":"tacos"}"#).unwrap()
    else {
        panic!("a screen that does not exist must not navigate");
    };
    assert!(text.starts_with("error:"), "{text}");
    assert!(text.contains("teams"), "it must list the real ones: {text}");

    let out = run_sync_tool("1", "open_screen", r#"{"screen":"agenda"}"#).unwrap();
    assert!(matches!(out, Sync::Navigated(_, Screen::Agenda)), "{out:?}");

    assert!(run_sync_tool("1", "list_memories", "{}").is_none(), "not one of ours");
}

#[test]
fn a_write_parks_and_never_runs_itself() {
    let out = run_sync_tool(
        "call_7",
        "api_write",
        r#"{"method":"post","path":"/api/v1/todos/boards/2/items","body":{"title":"ship it"}}"#,
    )
    .unwrap();
    let Sync::Parked(w) = out else { panic!("a write must park: {out:?}") };
    assert_eq!(w.id(), "call_7", "it has to answer the call that asked for it");
    assert_eq!(w.summary(), "POST /api/v1/todos/boards/2/items");
    let Pending::Write { method, body, .. } = &*w else { panic!() };
    assert_eq!(method, "POST", "lowercase from the model is still a POST");
    assert!(matches!(body.get("title"), Some(Json::Str(t)) if t == "ship it"));
    assert!(w.detail().unwrap().contains("ship it"), "the body is on the card");
    assert_eq!(w.heading(), "Make this change?");
}

#[test]
fn a_command_parks_and_a_blank_one_is_refused() {
    let out = run_sync_tool("c1", "run_command", r#"{"command":"git status"}"#).unwrap();
    let Sync::Parked(p) = out else { panic!("a command must park: {out:?}") };
    assert_eq!(p.summary(), "$ git status");
    assert_eq!(p.heading(), "Run this on your machine?");
    assert_eq!(p.detail(), None, "the command is the whole of it");

    for args in [r#"{"command":"   "}"#, "{}", "not json"] {
        match run_sync_tool("c1", "run_command", args).unwrap() {
            Sync::Answered(text) => assert!(text.starts_with("error:"), "{args}: {text}"),
            other => panic!("{args} must not become a card: {other:?}"),
        }
    }
}

#[test]
fn a_write_outside_the_api_or_with_a_bad_method_is_refused_before_the_card() {
    for args in [
        r#"{"method":"POST","path":"/v1/chat/completions"}"#,
        r#"{"method":"POST","path":"/api/v1/../secrets"}"#,
        r#"{"method":"GET","path":"/api/v1/teams/"}"#,
        r#"{"method":"HEAD","path":"/api/v1/teams/"}"#,
    ] {
        match run_sync_tool("1", "api_write", args).unwrap() {
            Sync::Answered(text) => assert!(text.starts_with("error:"), "{args}: {text}"),
            other => panic!("{args} must not reach a confirm card: {other:?}"),
        }
    }
    let out = run_sync_tool(
        "1",
        "api_write",
        r#"{"method":"POST","path":"/api/v1/assistant/items/4/complete"}"#,
    )
    .unwrap();
    let Sync::Parked(w) = out else { panic!("{out:?}") };
    assert_eq!(w.detail(), None, "an empty body is not worth a code block");
}

#[test]
fn the_spec_covers_exactly_the_tools_that_are_dispatched() {
    let spec = tools_spec();
    let named: Vec<String> = spec
        .iter()
        .map(|t| match t.get("function").and_then(|f| f.get("name")) {
            Some(Json::Str(n)) => n.clone(),
            _ => panic!("a named function"),
        })
        .collect();
    assert_eq!(named, tool_names(), "a tool in the spec with no dispatch arm answers nothing");
}

#[test]
fn rate_tracks_the_stream_around_the_setting() {
    assert_eq!(speech_rate(15, 0, true), 15 - RATE_SPAN / 2);
    assert_eq!(speech_rate(15, 0, false), 15);
    assert_eq!(speech_rate(15, 1, true), 15);
    assert_eq!(speech_rate(15, 2, true), 15 + RATE_SPAN / 2);
    assert_eq!(speech_rate(15, 3, false), 15 + RATE_SPAN);
    assert_eq!(speech_rate(85, 5, false), 90, "never past the top");
    assert_eq!(speech_rate(-45, 0, true), -50, "nor below the bottom");
}

#[test]
fn the_orb_says_what_it_is_doing() {
    assert_eq!(mode_of(true, true, false, false, true, true), Mode::Listening);
    assert_eq!(mode_of(false, false, false, true, true, true), Mode::Thinking);
    assert_eq!(mode_of(false, false, false, false, true, true), Mode::Speaking);
    assert_eq!(mode_of(false, false, false, false, false, true), Mode::Armed);
    assert_eq!(mode_of(false, false, false, false, false, false), Mode::Idle);
    assert_eq!(mode_label(Mode::Idle), "Standing by");
    assert_eq!(mode_label(Mode::Armed), "Mic live");
    assert!(busy_of(false, false, false, 1));
    assert!(!busy_of(false, false, false, 0));
}

#[test]
fn blank_text_is_nothing() {
    assert_eq!(non_empty("  hi  ").as_deref(), Some("hi"));
    assert_eq!(non_empty(" \n "), None);
}

#[test]
fn salvage_reads_calls_written_as_text() {
    let tools = vec!["remember".to_string()];
    let calls = salvage_calls(
        "```json\n{\"name\": \"run_command\", \"arguments\": {\"command\": \"ls\"}}\n```",
        &tools,
    )
    .expect("a call");
    assert_eq!(calls.len(), 1);
    assert_eq!(calls[0].id, "salvaged_0");
    assert_eq!(calls[0].name, "run_command");
    assert_eq!(calls[0].arguments, "{\"command\":\"ls\"}");

    let two = salvage_calls(
        r#"[{"name": "remember", "arguments": "{\"fact\":\"x\"}"}, {"name": "run_command"}]"#,
        &tools,
    )
    .unwrap();
    assert_eq!(two[1].id, "salvaged_1");
    assert_eq!(two[0].arguments, "{\"fact\":\"x\"}");
    assert_eq!(two[1].arguments, "{}");

    assert!(salvage_calls(r#"{"name": "rm_rf"}"#, &tools).is_none(), "not a tool that exists");
    assert!(salvage_calls("I ran it for you.", &tools).is_none(), "prose");
    assert!(salvage_calls("[]", &tools).is_none(), "no calls");
    assert!(salvage_calls(r#"[{"name": "remember"}, {"nope": 1}]"#, &tools).is_none());
}

#[test]
fn a_command_row_shows_the_command_itself() {
    assert_eq!(command_of(&call("run_command", r#"{"command": "cargo build"}"#)), "cargo build");
    assert_eq!(command_of(&call("run_command", r#"{"comm"#)), r#"{"comm"#, "still streaming");
    assert_eq!(command_of(&call("remember", "  {\"a\":1}  ")), "remember({\"a\":1})");
    assert_eq!(tool_plan(&call("run_command", r#"{"command": "ls"}"#)), Ok("ls".to_string()));
    assert!(tool_plan(&call("run_command", "{}")).unwrap_err().starts_with("error: run_command needs"));
    assert_eq!(tool_plan(&call("other", "{}")), Err("error: unknown tool \"other\"".to_string()));
}

#[test]
fn command_output_reads_like_the_terminal() {
    assert_eq!(command_output(b"hello\n", b"", true, Some(0)), "hello\n");
    assert_eq!(command_output(b"out", b"warn", true, Some(0)), "out\nwarn");
    assert_eq!(command_output(b"", b"boom", false, Some(2)), "boom\n(exit code 2)");
    assert_eq!(command_output(b"", b"", false, None), "\n(exit code -1)");
    assert_eq!(command_output(b"  ", b" \n", true, Some(0)), "(no output)");
    let long = "é".repeat(5000);
    let cut = command_output(long.as_bytes(), b"", true, Some(0));
    assert!(cut.ends_with("\n… (truncated)"));
    assert_eq!(cut.len(), 8000 + "\n… (truncated)".len());
    assert_eq!(timed_out(60), "(timed out after 60s)");
    assert_eq!(failed_to_start("no sh"), "(failed to start: no sh)");
}

#[test]
fn unconfigured_providers_are_not_offered_and_a_switch_drops_a_foreign_model() {
    let catalog = configured_only(vec![
        entry("ollama", "qwen2.5:7b", true),
        entry("gemini", "gemini-2.0-flash", false),
    ]);
    assert_eq!(catalog.len(), 1);
    assert_eq!(catalog[0].id, "ollama");

    let catalog = vec![entry("a", "a-model", true), entry("b", "b-model", true)];
    let (mut provider, mut model) = ("a".to_string(), "a-model".to_string());
    choose_provider(&catalog, &mut provider, &mut model, "b".into());
    assert_eq!(provider, "b");
    assert!(model.is_empty(), "a-model does not exist on provider b");
    model = "b-model".into();
    choose_provider(&catalog, &mut provider, &mut model, String::new());
    assert_eq!(model, "b-model", "no provider offers every model");
}
