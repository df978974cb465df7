use agent_platform_desktop::apidocs::{
    method_tone, parse, snippet, update, Effect, Endpoint, Message, Snippet, State, Tone,
};
use agent_platform_desktop::json::Json;

fn to_json(v: serde_json::Value) -> Json {
    match v {
        serde_json::Value::Null => Json::Null,
        serde_json::Value::Bool(b) => Json::Bool(b),
        serde_json::Value::Number(n) => Json::Number(n.to_string()),
        serde_json::Value::String(s) => Json::Str(s),
        serde_json::Value::Array(a) => Json::Array(a.into_iter().map(to_json).collect()),
        serde_json::Value::Object(m) => {
            Json::Object(m.into_iter().map(|(k, x)| (k, to_json(x))).collect())
        }
    }
}

const SPEC: &str = r##"{
    "paths": {
        "/api/v1/teams/": {
            "get": {"tags": ["teams"], "summary": "List Teams", "parameters": [
                {"name": "authorization", "in": "header", "required": false,
                 "schema": {"type": "string"}}
            ]},
            "post": {"tags": ["teams"], "summary": "Create Team", "requestBody": {
                "content": {"application/json": {
                    "schema": {"$ref": "#/components/schemas/TeamBody"}}}}}
        },
        "/api/v1/coder/chat": {
            "post": {"tags": ["coder"], "summary": "Chat"}
        },
        "/health": {"get": {"summary": "Health"}},
        "/api/v1/todos/boards/{board_id}/items": {
            "get": {"tags": ["todos"], "summary": "List Items", "parameters": [
                {"name": "board_id", "in": "path", "required": true,
                 "schema": {"type": "integer"}},
                {"name": "q", "in": "query", "required": true,
                 "schema": {"anyOf": [{"type": "string"}, {"type": "null"}]}}
            ]}
        }
    },
    "components": {"schemas": {
        "TeamBody": {"type": "object", "properties": {
            "name": {"type": "string"},
            "size": {"type": "integer", "default": 3},
            "parent_id": {"anyOf": [{"type": "integer"}, {"type": "null"}]},
            "roles": {"type": "array", "items": {"$ref": "#/components/schemas/Role"}},
            "id": {"type": "integer", "readOnly": true}
        }},
        "Role": {"type": "object", "properties": {"title": {"type": "string"}}}
    }}
}"##;

fn spec() -> Json {
    to_json(serde_json::from_str(SPEC).unwrap())
}

fn find<'a>(all: &'a [Endpoint], method: &str, path: &str) -> &'a Endpoint {
    all.iter().find(|e| e.method == method && e.path == path).expect("endpoint")
}

#[test]
fn every_operation_is_listed_and_grouped() {
    let all = parse(&spec());
    assert_eq!(all.len(), 5);
    let tags: Vec<&str> = all.iter().map(|e| e.tag.as_str()).collect();
    assert_eq!(tags, ["coder", "other", "teams", "teams", "todos"]);
}

#[test]
fn the_auth_header_every_route_inherits_is_not_a_parameter() {
    let all = parse(&spec());
    assert!(find(&all, "GET", "/api/v1/teams/").params.is_empty());
    let items = find(&all, "GET", "/api/v1/todos/boards/{board_id}/items");
    let names: Vec<&str> = items.params.iter().map(|p| p.name.as_str()).collect();
    assert_eq!(names, ["board_id", "q"]);
    assert_eq!(items.params[1].kind, "string | null");
}

#[test]
fn a_body_skeleton_keeps_defaults_and_drops_read_only_fields() {
    let all = parse(&spec());
    let body: serde_json::Value =
        serde_json::from_str(find(&all, "POST", "/api/v1/teams/").body.as_ref().unwrap()).unwrap();
    assert_eq!(body["name"], "");
    assert_eq!(body["size"], 3, "a declared default is the better example");
    assert_eq!(body["parent_id"], 0, "anyOf [T, null] asks the caller for T");
    let roles: serde_json::Value = serde_json::from_str(r#"[{"title": ""}]"#).unwrap();
    assert_eq!(body["roles"], roles, "$ref inside items resolves");
    assert!(body.get("id").is_none(), "server-assigned fields are not sent");
}

#[test]
fn curl_is_one_pasteable_line() {
    let all = parse(&spec());
    let post = find(&all, "POST", "/api/v1/teams/").curl("http://127.0.0.1:18410", "k-1");
    assert_eq!(post.lines().count(), 1, "a \\-continued command breaks in PowerShell");
    assert!(post.starts_with("curl -X POST \"http://127.0.0.1:18410/api/v1/teams/\""));
    assert!(post.contains("-H \"Authorization: Bearer k-1\""));
    assert!(post.contains("-d '{\"name\":\"\""), "the body rides on one line");

    assert!(!find(&all, "GET", "/health").curl("http://x", "k").contains("Authorization"));
    let items = find(&all, "GET", "/api/v1/todos/boards/{board_id}/items");
    assert!(items.curl("http://x", "k").contains("/items?q=<q>"));
}

#[test]
fn curl_spells_out_a_missing_key() {
    let all = parse(&spec());
    let get = find(&all, "GET", "/api/v1/teams/").curl("http://x", "");
    assert_eq!(get, "curl \"http://x/api/v1/teams/\" -H \"Authorization: Bearer <key>\"");
}

#[test]
fn the_filter_matches_what_a_reader_would_type() {
    let all = parse(&spec());
    let teams = find(&all, "GET", "/api/v1/teams/");
    assert!(teams.matches(""));
    assert!(teams.matches("TEAM"), "case-insensitive");
    assert!(teams.matches("list"), "summaries are searchable");
    assert!(!teams.matches("workflow"));
    assert_eq!(teams.id(), "GET /api/v1/teams/");
}

#[test]
fn the_screen_fetches_once_and_filters_what_it_shows() {
    let mut s = State::new();
    assert!(matches!(update(&mut s, Message::Refresh), Effect::Fetch));
    assert!(matches!(update(&mut s, Message::Loaded(Ok(parse(&spec())))), Effect::Nothing));
    assert!(matches!(update(&mut s, Message::Refresh), Effect::Nothing), "once per session");
    update(&mut s, Message::FilterChanged("todos".into()));
    assert_eq!(s.visible().len(), 1);
    update(&mut s, Message::Toggle("GET /health".into()));
    assert_eq!(s.open.as_deref(), Some("GET /health"));
    update(&mut s, Message::Toggle("GET /health".into()));
    assert_eq!(s.open, None);
    match update(&mut s, Message::Copy("b1".into(), "text".into())) {
        Effect::Clipboard(t) => assert_eq!(t, "text"),
        _ => panic!("the copy goes to the clipboard"),
    }
    assert_eq!(s.copied.as_deref(), Some("b1"));
    update(&mut s, Message::Loaded(Err("down".into())));
    assert!(matches!(update(&mut s, Message::Refresh), Effect::Fetch), "a failure may retry");
}

#[test]
fn snippets_run_against_this_origin() {
    let c = snippet(Snippet::Curl, "http://o");
    assert!(c.starts_with("# liveness — no key needed\ncurl http://o/health\n"));
    assert!(snippet(Snippet::Python, "http://o").contains("BASE = \"http://o\""));
    assert!(snippet(Snippet::OpenAi, "http://o").contains("base_url=\"http://o/v1\""));
    assert_eq!(Snippet::OpenAi.label(), "OpenAI SDK");
}

#[test]
fn methods_read_safe_to_destructive() {
    assert_eq!(method_tone("GET"), Tone::Info);
    assert_eq!(method_tone("POST"), Tone::Success);
    assert_eq!(method_tone("PATCH"), Tone::Warning);
    assert_eq!(method_tone("DELETE"), Tone::Danger);
    assert_eq!(method_tone("HEAD"), Tone::Neutral);
}

#[test]
fn filtering_keeps_the_open_row_and_the_snippet() {
    let mut s = State::new();
    let _ = update(&mut s, Message::Loaded(Ok(parse(&spec()))));
    let _ = update(&mut s, Message::Toggle("GET /x".into()));
    let _ = update(&mut s, Message::SnippetChanged(Snippet::Curl));
    let _ = update(&mut s, Message::FilterChanged("pro".into()));
    assert_eq!(s.open.as_deref(), Some("GET /x"));
    assert_eq!(s.filter, "pro");
    assert!(s.loaded && s.error.is_none());
    let fx = update(&mut s, Message::Copy("b".into(), "text".into()));
    assert!(matches!(fx, Effect::Clipboard(t) if t == "text"));
    assert_eq!(s.open.as_deref(), Some("GET /x"), "copying leaves the open row open");
}
