//! The assistant's hands on the rest of the app: read anything the REST API
//! serves, ask to change something (a card the user has to approve), and move
//! the user to the screen that shows it.
use vstd::prelude::*;
use crate::coder::arg_text;
use crate::json::{
    get_spec, lemma_member_views, lemma_views, member_views, parse_json, parsed_json, pretty,
    to_pretty, views, Json, JsonV,
};
use crate::text::{
    ascii_upper_seq, chars_of, contains_chars, contains_seq, debug_str, debug_text, is_blank,
    lowercase, push_str, starts_with_str, str_eq, string_of, to_ascii_uppercase, to_lowercase,
    trim, trim_str,
};

verus! {

/// A screen of the app.
#[derive(Debug, Clone, Copy, PartialEq, Eq, Structural)]
pub enum Screen {
    Dashboard,
    Processes,
    Projects,
    Teams,
    Workflows,
    Plans,
    Agenda,
    Coder,
    Assistant,
    Memory,
    Logs,
    Settings,
}

impl Screen {
    /// What `open_screen` calls it.
    pub open spec fn name_spec(self) -> Seq<char> {
        match self {
            Screen::Dashboard => "dashboard"@,
            Screen::Processes => "processes"@,
            Screen::Projects => "projects"@,
            Screen::Teams => "teams"@,
            Screen::Workflows => "workflows"@,
            Screen::Plans => "plans"@,
            Screen::Agenda => "agenda"@,
            Screen::Coder => "coder"@,
            Screen::Assistant => "assistant"@,
            Screen::Memory => "memory"@,
            Screen::Logs => "logs"@,
            Screen::Settings => "settings"@,
        }
    }

    /// What it holds, as the tool spec tells the model.
    pub open spec fn what_spec(self) -> Seq<char> {
        match self {
            Screen::Dashboard => "server health and the landing page"@,
            Screen::Processes => "agent runs, live and past"@,
            Screen::Projects => "projects"@,
            Screen::Teams => "team templates and their rosters"@,
            Screen::Workflows => "saved workflows and their runs"@,
            Screen::Plans => "the todo boards"@,
            Screen::Agenda => "the personal assistant's day/week/month board"@,
            Screen::Coder => "the coding agent, its files and its terminal"@,
            Screen::Assistant => "this conversation"@,
            Screen::Memory => "what E.V. remembers about the user"@,
            Screen::Logs => "the server log"@,
            Screen::Settings => "theme, voice, providers, model-ops"@,
        }
    }

    pub fn name(self) -> (r: &'static str)
        ensures
            r@ == self.name_spec(),
    {
        match self {
            Screen::Dashboard => "dashboard",
            Screen::Processes => "processes",
            Screen::Projects => "projects",
            Screen::Teams => "teams",
            Screen::Workflows => "workflows",
            Screen::Plans => "plans",
            Screen::Agenda => "agenda",
            Screen::Coder => "coder",
            Screen::Assistant => "assistant",
            Screen::Memory => "memory",
            Screen::Logs => "logs",
            Screen::Settings => "settings",
        }
    }

    pub fn what(self) -> (r: &'static str)
        ensures
            r@ == self.what_spec(),
    {
        match self {
            Screen::Dashboard => "server health and the landing page",
            Screen::Processes => "agent runs, live and past",
            Screen::Projects => "projects",
            Screen::Teams => "team templates and their rosters",
            Screen::Workflows => "saved workflows and their runs",
            Screen::Plans => "the todo boards",
            Screen::Agenda => "the personal assistant's day/week/month board",
            Screen::Coder => "the coding agent, its files and its terminal",
            Screen::Assistant => "this conversation",
            Screen::Memory => "what E.V. remembers about the user",
            Screen::Logs => "the server log",
            Screen::Settings => "theme, voice, providers, model-ops",
        }
    }
}

/// Every screen `open_screen` can move to, in the order the tool spec lists them.
pub open spec fn all_screens() -> Seq<Screen> {
    seq![Screen::Dashboard, Screen::Processes, Screen::Projects, Screen::Teams, Screen::Workflows, Screen::Plans, Screen::Agenda, Screen::Coder, Screen::Assistant, Screen::Memory, Screen::Logs, Screen::Settings]
}

pub fn screens() -> (r: Vec<Screen>)
    ensures
        r@ == all_screens(),
{
    let r = vec![Screen::Dashboard, Screen::Processes, Screen::Projects, Screen::Teams, Screen::Workflows, Screen::Plans, Screen::Agenda, Screen::Coder, Screen::Assistant, Screen::Memory, Screen::Logs, Screen::Settings];
    assert(r@ =~= all_screens());
    r
}

/// The screen with this `open_screen` name.
pub open spec fn screen_of(name: Seq<char>) -> Option<Screen> {
    if name == "dashboard"@ {
        Some(Screen::Dashboard)
    } else 
    if name == "processes"@ {
        Some(Screen::Processes)
    } else 
    if name == "projects"@ {
        Some(Screen::Projects)
    } else 
    if name == "teams"@ {
        Some(Screen::Teams)
    } else 
    if name == "workflows"@ {
        Some(Screen::Workflows)
    } else 
    if name == "plans"@ {
        Some(Screen::Plans)
    } else 
    if name == "agenda"@ {
        Some(Screen::Agenda)
    } else 
    if name == "coder"@ {
        Some(Screen::Coder)
    } else 
    if name == "assistant"@ {
        Some(Screen::Assistant)
    } else 
    if name == "memory"@ {
        Some(Screen::Memory)
    } else 
    if name == "logs"@ {
        Some(Screen::Logs)
    } else 
    if name == "settings"@ {
        Some(Screen::Settings)
    } else {
        None
    }
}

fn screen_of_exec(name: &str) -> (r: Option<Screen>)
    ensures
        r == screen_of(name@),
{
    if str_eq(name, "dashboard") {
        Some(Screen::Dashboard)
    } else 
    if str_eq(name, "processes") {
        Some(Screen::Processes)
    } else 
    if str_eq(name, "projects") {
        Some(Screen::Projects)
    } else 
    if str_eq(name, "teams") {
        Some(Screen::Teams)
    } else 
    if str_eq(name, "workflows") {
        Some(Screen::Workflows)
    } else 
    if str_eq(name, "plans") {
        Some(Screen::Plans)
    } else 
    if str_eq(name, "agenda") {
        Some(Screen::Agenda)
    } else 
    if str_eq(name, "coder") {
        Some(Screen::Coder)
    } else 
    if str_eq(name, "assistant") {
        Some(Screen::Assistant)
    } else 
    if str_eq(name, "memory") {
        Some(Screen::Memory)
    } else 
    if str_eq(name, "logs") {
        Some(Screen::Logs)
    } else 
    if str_eq(name, "settings") {
        Some(Screen::Settings)
    } else {
        None
    }
}

/// The screen a name asks for, case and surrounding space aside.
pub fn screen_named(name: &str) -> (r: Option<Screen>)
    ensures
        r == screen_of(lowercase(trim(name@))),
{
    let want = to_lowercase(trim_str(name).as_str());
    screen_of_exec(want.as_str())
}

/// The names of every screen, as the refusal lists them.
pub open spec fn screen_names_text() -> Seq<char> {
    SCREEN_NAMES@
}

/// The screens and what each holds, as the tool spec describes them.
pub open spec fn screen_help_text() -> Seq<char> {
    SCREEN_HELP@
}

pub const API_GET_DESC: &'static str = "Read this app's own data over its REST API and return the raw JSON. Use this instead of guessing or asking the user. Useful paths: /api/v1/teams/ (teams; trailing slash required), /api/v1/projects/ (projects; trailing slash required), /api/v1/workflows (workflows), /api/v1/workflows/{id}/runs?limit=20 (one workflow's run history), /api/v1/todos/boards (plan boards), /api/v1/todos/boards/{id} (one board with its items), /api/v1/assistant/dashboard?project_id={id}&horizon=day (today's agenda; horizon is day, week or month, and project_id comes from /api/v1/projects/), /api/v1/processes?limit=20&unassigned_only=true (agent runs; this route rejects a bare limit \u{2014} it needs one of project_id, client_id or unassigned_only=true), /api/v1/processes/{id} (one run with its tasks), /api/v1/system/status (server health). Only GET, only /api/v1/ \u{2014} this cannot change anything.";

pub const API_WRITE_DESC: &'static str = "Ask to change something in this app: create, update, delete or run. The user sees the method, path and body and has to approve it before anything happens, so propose the call rather than asking them in prose \u{2014} but never claim it is done until the tool result says so. One change per turn. Useful calls: POST /api/v1/todos/boards/{board}/items {\"title\": \"\u{2026}\"} (add a plan item), PATCH /api/v1/todos/items/{id} {\"status\": \"done\"} (change one), POST /api/v1/assistant/items/{id}/complete {} (log a completion on the agenda), POST /api/v1/workflows/{id}/run {\"input\": {}} (run a workflow), POST /api/v1/projects/ {\"name\": \"\u{2026}\"}, POST /api/v1/teams/ {\"name\": \"\u{2026}\", \"roster\": {\u{2026}}}. Read the matching api_get first when you need an id.";

pub const PATH1: &'static str = "Path with query string, starting with /api/v1/.";

pub const PATH2: &'static str = "Path starting with /api/v1/.";

pub const BODY_DESC: &'static str = "JSON request body. {} when the route takes none.";

pub const OPEN_PRE: &'static str = "Move the user to a screen in this app. Use it when they ask to be taken somewhere, or alongside an answer when the screen shows more than you can say. Screens: ";

pub const OPEN_POST: &'static str = ".";

pub const SCREEN_NAMES: &'static str = "dashboard, processes, projects, teams, workflows, plans, agenda, coder, assistant, memory, logs, settings";

pub const SCREEN_HELP: &'static str = "dashboard (server health and the landing page), processes (agent runs, live and past), projects (projects), teams (team templates and their rosters), workflows (saved workflows and their runs), plans (the todo boards), agenda (the personal assistant's day/week/month board), coder (the coding agent, its files and its terminal), assistant (this conversation), memory (what E.V. remembers about the user), logs (the server log), settings (theme, voice, providers, model-ops)";

// ---------------------------------------------------------------------------
// The tool spec
// ---------------------------------------------------------------------------

/// Tool names handled here; the assistant checks this before dispatching a
/// call to the terminal.
pub open spec fn tools_spec_names() -> Seq<Seq<char>> {
    seq!["api_get"@, "api_write"@, "open_screen"@]
}

pub fn tool_names() -> (r: Vec<&'static str>)
    ensures
        r@.map_values(|s: &'static str| s@) == tools_spec_names(),
{
    let r = vec!["api_get", "api_write", "open_screen"];
    assert(r@.map_values(|s: &'static str| s@) =~= tools_spec_names());
    r
}

/// Tools answered inside the update loop, against the app's own state.
pub fn sync_tool_names() -> (r: Vec<&'static str>)
    ensures
        r@.map_values(|s: &'static str| s@) == seq!["open_screen"@, "api_write"@],
{
    let r = vec!["open_screen", "api_write"];
    assert(r@.map_values(|s: &'static str| s@) =~= seq!["open_screen"@, "api_write"@]);
    r
}

pub open spec fn obj2(k1: Seq<char>, v1: JsonV, k2: Seq<char>, v2: JsonV) -> JsonV {
    JsonV::Object(seq![(k1, v1), (k2, v2)])
}

pub open spec fn obj3(
    k1: Seq<char>,
    v1: JsonV,
    k2: Seq<char>,
    v2: JsonV,
    k3: Seq<char>,
    v3: JsonV,
) -> JsonV {
    JsonV::Object(seq![(k1, v1), (k2, v2), (k3, v3)])
}

/// A tool in OpenAI's function form.
pub open spec fn function_tool(name: Seq<char>, description: Seq<char>, parameters: JsonV) -> JsonV {
    obj2(
        "function"@,
        obj3(
            "description"@,
            JsonV::Str(description),
            "name"@,
            JsonV::Str(name),
            "parameters"@,
            parameters,
        ),
        "type"@,
        JsonV::Str("function"@),
    )
}

/// An object schema with these properties and required names.
pub open spec fn object_params(props: JsonV, required: Seq<JsonV>) -> JsonV {
    obj3("properties"@, props, "required"@, JsonV::Array(required), "type"@, JsonV::Str("object"@))
}

pub open spec fn typed(kind: Seq<char>, key: Seq<char>, value: JsonV) -> JsonV {
    obj2(key, value, "type"@, JsonV::Str(kind))
}

pub open spec fn strs(s: Seq<Seq<char>>) -> Seq<JsonV> {
    s.map_values(|x: Seq<char>| JsonV::Str(x))
}

pub open spec fn api_get_description() -> Seq<char> {
    API_GET_DESC@
}

pub open spec fn api_write_description() -> Seq<char> {
    API_WRITE_DESC@
}

pub open spec fn open_screen_description() -> Seq<char> {
    OPEN_PRE@ + screen_help_text() + OPEN_POST@
}

pub open spec fn tools_spec_value() -> Seq<JsonV> {
    seq![
        function_tool(
            "api_get"@,
            api_get_description(),
            object_params(
                JsonV::Object(seq![("path"@, typed("string"@, "description"@, JsonV::Str(PATH1@)))]),
                strs(seq!["path"@]),
            ),
        ),
        function_tool(
            "api_write"@,
            api_write_description(),
            object_params(
                obj3(
                    "body"@,
                    typed("object"@, "description"@, JsonV::Str(BODY_DESC@)),
                    "method"@,
                    typed(
                        "string"@,
                        "enum"@,
                        JsonV::Array(strs(seq!["POST"@, "PATCH"@, "PUT"@, "DELETE"@])),
                    ),
                    "path"@,
                    typed("string"@, "description"@, JsonV::Str(PATH2@)),
                ),
                strs(seq!["method"@, "path"@]),
            ),
        ),
        function_tool(
            "open_screen"@,
            open_screen_description(),
            object_params(
                JsonV::Object(
                    seq![
                        ("screen"@, typed(
                            "string"@,
                            "enum"@,
                            JsonV::Array(strs(all_screens().map_values(|s: Screen| s.name_spec()))),
                        )),
                    ],
                ),
                strs(seq!["screen"@]),
            ),
        ),
    ]
}

fn jstr(s: &str) -> (r: Json)
    ensures
        r@ == JsonV::Str(s@),
{
    Json::Str(s.to_owned())
}

fn jobj2(k1: &str, v1: Json, k2: &str, v2: Json) -> (r: Json)
    ensures
        r@ == obj2(k1@, v1@, k2@, v2@),
{
    let mut m: Vec<(String, Json)> = Vec::new();
    m.push((k1.to_owned(), v1));
    m.push((k2.to_owned(), v2));
    proof {
        lemma_member_views(m@);
        crate::json::lemma_view_object(m);
        assert(member_views(m@) =~= seq![(k1@, v1@), (k2@, v2@)]);
    }
    Json::Object(m)
}

fn jobj3(k1: &str, v1: Json, k2: &str, v2: Json, k3: &str, v3: Json) -> (r: Json)
    ensures
        r@ == obj3(k1@, v1@, k2@, v2@, k3@, v3@),
{
    let mut m: Vec<(String, Json)> = Vec::new();
    m.push((k1.to_owned(), v1));
    m.push((k2.to_owned(), v2));
    m.push((k3.to_owned(), v3));
    proof {
        lemma_member_views(m@);
        crate::json::lemma_view_object(m);
        assert(member_views(m@) =~= seq![(k1@, v1@), (k2@, v2@), (k3@, v3@)]);
    }
    Json::Object(m)
}

fn jobj1(k1: &str, v1: Json) -> (r: Json)
    ensures
        r@ == JsonV::Object(seq![(k1@, v1@)]),
{
    let mut m: Vec<(String, Json)> = Vec::new();
    m.push((k1.to_owned(), v1));
    proof {
        lemma_member_views(m@);
        crate::json::lemma_view_object(m);
        assert(member_views(m@) =~= seq![(k1@, v1@)]);
    }
    Json::Object(m)
}

fn jstrs(items: &Vec<&str>) -> (r: Json)
    ensures
        r@ is Array,
        r@->Array_0.len() == items@.len(),
        forall|k: int| 0 <= k < items@.len() ==> r@->Array_0[k] == JsonV::Str(items@[k]@),
{
    let mut v: Vec<Json> = Vec::new();
    let mut i: usize = 0;
    while i < items.len()
        invariant
            i <= items@.len(),
            views(v@).len() == i,
            forall|k: int| 0 <= k < i ==> views(v@)[k] == JsonV::Str(items@[k]@),
        decreases items@.len() - i,
    {
        let ghost prev = v@;
        let x = jstr(items[i]);
        v.push(x);
        proof {
            lemma_views(prev);
            lemma_views(v@);
            assert forall|k: int| 0 <= k < i + 1 implies views(v@)[k] == JsonV::Str(items@[k]@) by {
                if k < i {
                    assert(v@[k] == prev[k]);
                    assert(views(prev)[k] == JsonV::Str(items@[k]@));
                } else {
                    assert(v@[k] == x);
                }
            }
        }
        i = i + 1;
    }
    proof {
        crate::json::lemma_view_array(v);
    }
    Json::Array(v)
}

/// The app half of the assistant's tool spec, in OpenAI function form.
pub fn tools_spec() -> (r: Vec<Json>)
    ensures
        views(r@) == tools_spec_value(),
{
    let path_req_items: Vec<&str> = vec!["path"];
    let path_req = jstrs(&path_req_items);
    assert(path_req@->Array_0 =~= strs(seq!["path"@]));
    assert(path_req@ =~= JsonV::Array(strs(seq!["path"@])));
    let get = jobj2(
        "function",
        jobj3(
            "description",
            jstr(API_GET_DESC),
            "name",
            jstr("api_get"),
            "parameters",
            jobj3(
                "properties",
                jobj1("path", jobj2("description", jstr(PATH1), "type", jstr("string"))),
                "required",
                path_req,
                "type",
                jstr("object"),
            ),
        ),
        "type",
        jstr("function"),
    );
    assert(get@ == tools_spec_value()[0]);
    let methods_items: Vec<&str> = vec!["POST", "PATCH", "PUT", "DELETE"];
    let methods = jstrs(&methods_items);
    assert(methods@->Array_0 =~= strs(seq!["POST"@, "PATCH"@, "PUT"@, "DELETE"@]));
    assert(methods@ =~= JsonV::Array(strs(seq!["POST"@, "PATCH"@, "PUT"@, "DELETE"@])));
    let write_req_items: Vec<&str> = vec!["method", "path"];
    let write_req = jstrs(&write_req_items);
    assert(write_req@->Array_0 =~= strs(seq!["method"@, "path"@]));
    assert(write_req@ =~= JsonV::Array(strs(seq!["method"@, "path"@])));
    let write = jobj2(
        "function",
        jobj3(
            "description",
            jstr(API_WRITE_DESC),
            "name",
            jstr("api_write"),
            "parameters",
            jobj3(
                "properties",
                jobj3(
                    "body",
                    jobj2("description", jstr(BODY_DESC), "type", jstr("object")),
                    "method",
                    jobj2("enum", methods, "type", jstr("string")),
                    "path",
                    jobj2("description", jstr(PATH2), "type", jstr("string")),
                ),
                "required",
                write_req,
                "type",
                jstr("object"),
            ),
        ),
        "type",
        jstr("function"),
    );
    assert(write@ == tools_spec_value()[1]);
    let all = screens();
    let mut names: Vec<&str> = Vec::new();
    let mut i: usize = 0;
    while i < all.len()
        invariant
            all@ == all_screens(),
            i <= all@.len(),
            names@.len() == i,
            forall|k: int| 0 <= k < i ==> names@[k]@ == all@[k].name_spec(),
        decreases all@.len() - i,
    {
        names.push(all[i].name());
        i = i + 1;
    }
    let mut description: Vec<char> = Vec::new();
    push_str(&mut description, OPEN_PRE);
    push_str(&mut description, SCREEN_HELP);
    push_str(&mut description, OPEN_POST);
    assert(description@ =~= OPEN_PRE@ + SCREEN_HELP@ + OPEN_POST@);
    let listed = jstrs(&names);
    proof {
        let want = strs(all_screens().map_values(|s: Screen| s.name_spec()));
        assert(names@.len() == all_screens().len());
        assert forall|k: int| 0 <= k < want.len() implies listed@->Array_0[k] == want[k] by {
            assert(names@[k]@ == all@[k].name_spec());
        }
        assert(listed@->Array_0 =~= want);
    }
    let screen_req_items: Vec<&str> = vec!["screen"];
    let screen_req = jstrs(&screen_req_items);
    assert(screen_req@->Array_0 =~= strs(seq!["screen"@]));
    assert(screen_req@ =~= JsonV::Array(strs(seq!["screen"@])));
    let open = jobj2(
        "function",
        jobj3(
            "description",
            jstr(string_of(&description).as_str()),
            "name",
            jstr("open_screen"),
            "parameters",
            jobj3(
                "properties",
                jobj1("screen", jobj2("enum", listed, "type", jstr("string"))),
                "required",
                screen_req,
                "type",
                jstr("object"),
            ),
        ),
        "type",
        jstr("function"),
    );
    assert(open@ == tools_spec_value()[2]);
    let mut out: Vec<Json> = Vec::new();
    out.push(get);
    out.push(write);
    out.push(open);
    proof {
        lemma_views(out@);
        assert(views(out@) =~= tools_spec_value());
    }
    out
}

// ---------------------------------------------------------------------------
// Consent
// ---------------------------------------------------------------------------

/// Something the model asked to do that nobody has agreed to yet: it leaves
/// the app and changes something outside it.
#[derive(Debug)]
pub enum Pending {
    /// A REST write against this app's own API; the body as the model wrote it.
    Write { id: String, method: String, path: String, body: Json },
    /// A shell command on the user's own machine.
    Command { id: String, command: String },
}

impl Pending {
    /// The call this answers once it is run or refused.
    pub fn id(&self) -> (r: &str)
        ensures
            r@ == match self {
                Pending::Write { id, .. } => id@,
                Pending::Command { id, .. } => id@,
            },
    {
        match self {
            Pending::Write { id, .. } => id.as_str(),
            Pending::Command { id, .. } => id.as_str(),
        }
    }

    /// The card's question: this app's data, or the whole machine.
    pub fn heading(&self) -> (r: &'static str)
        ensures
            r@ == match self {
                Pending::Write { .. } => "Make this change?"@,
                Pending::Command { .. } => "Run this on your machine?"@,
            },
    {
        match self {
            Pending::Write { .. } => "Make this change?",
            Pending::Command { .. } => "Run this on your machine?",
        }
    }

    /// One line: exactly what happens, minus any body.
    pub fn summary(&self) -> (r: String)
        ensures
            r@ == match self {
                Pending::Write { method, path, .. } => method@ + " "@ + path@,
                Pending::Command { command, .. } => "$ "@ + command@,
            },
    {
        let mut out: Vec<char> = Vec::new();
        match self {
            Pending::Write { method, path, .. } => {
                push_str(&mut out, method.as_str());
                push_str(&mut out, " ");
                push_str(&mut out, path.as_str());
            },
            Pending::Command { command, .. } => {
                push_str(&mut out, "$ ");
                push_str(&mut out, command.as_str());
            },
        }
        string_of(&out)
    }

    /// The body of a write, indented, unless it is `{}`.
    pub fn detail(&self) -> (r: Option<String>)
        ensures
            match self {
                Pending::Write { body, .. } => if body@ != JsonV::Object(Seq::empty()) {
                    r is Some && r->0@ == pretty(body@)
                } else {
                    r is None
                },
                Pending::Command { .. } => r is None,
            },
    {
        match self {
            Pending::Write { body, .. } => {
                let empty = match body {
                    Json::Object(m) => {
                        proof {
                            crate::json::lemma_view_object(*m);
                        }
                        m.len() == 0
                    },
                    Json::Array(v) => {
                        proof {
                            crate::json::lemma_view_array(*v);
                        }
                        false
                    },
                    _ => false,
                };
                if empty {
                    assert(body@ =~= JsonV::Object(Seq::empty()));
                    None
                } else {
                    Some(string_of(&to_pretty(body)))
                }
            },
            Pending::Command { .. } => None,
        }
    }
}

/// What answering a tool inside the update loop produced.
#[derive(Debug)]
pub enum Sync {
    /// Answered outright; this is the tool result.
    Answered(String),
    /// Answered, and the app should move to this screen.
    Navigated(String, Screen),
    /// Not answered yet: the user has to agree first.
    Parked(Box<Pending>),
}

/// The arguments of a call as a value; text that is not JSON reads as `null`.
pub open spec fn call_arguments(arguments: Seq<char>) -> JsonV {
    match parsed_json(arguments) {
        Some(v) => v,
        None => JsonV::Null,
    }
}

/// Whether a method is one a write may use.
pub open spec fn is_write_method(m: Seq<char>) -> bool {
    m == "POST"@ || m == "PATCH"@ || m == "PUT"@ || m == "DELETE"@
}

/// What a call comes to: for `open_screen` a move (or the list of real
/// screens when the asked one does not exist); for `api_write` a card, unless
/// the path leaves `/api/v1/`, climbs with `..`, or the method cannot write;
/// for `run_command` a card unless no command can be read out of it. Nothing
/// for any other tool.
pub open spec fn sync_outcome(
    id: Seq<char>,
    name: Seq<char>,
    arguments: Seq<char>,
) -> Option<SyncV> {
    let args = call_arguments(arguments);
    if name == "open_screen"@ {
        let asked = arg_text(args, "screen"@);
        Some(
            match screen_of(lowercase(trim(asked))) {
                Some(screen) => SyncV::Navigated("Opened the "@ + asked + " screen."@, screen),
                None => SyncV::Answered(
                    "error: no screen called "@ + debug_text(asked) + ". Pick one of: "@
                        + screen_names_text(),
                ),
            },
        )
    } else if name == "api_write"@ {
        let method = ascii_upper_seq(arg_text(args, "method"@));
        let path = arg_text(args, "path"@);
        Some(
            if !"/api/v1/"@.is_prefix_of(path) || contains_seq(path, ".."@) {
                SyncV::Answered(
                    "error: path must start with /api/v1/ and may not contain '..', got "@
                        + debug_text(path),
                )
            } else if !is_write_method(method) {
                SyncV::Answered(
                    "error: method must be POST, PATCH, PUT or DELETE, got "@ + debug_text(method),
                )
            } else {
                SyncV::Write(
                    id,
                    method,
                    path,
                    match get_spec(args, "body"@) {
                        Some(b) => b,
                        None => JsonV::Object(Seq::empty()),
                    },
                )
            },
        )
    } else if name == "run_command"@ {
        let command = arg_text(args, "command"@);
        Some(
            if trim(command).len() == 0 {
                SyncV::Answered(
                    "error: run_command needs {\"command\": \"\u{2026}\"}, got: "@ + arguments,
                )
            } else {
                SyncV::Command(id, command)
            },
        )
    } else {
        None
    }
}

/// The mathematical value of a [`Sync`].
pub enum SyncV {
    Answered(Seq<char>),
    Navigated(Seq<char>, Screen),
    Write(Seq<char>, Seq<char>, Seq<char>, JsonV),
    Command(Seq<char>, Seq<char>),
}

pub open spec fn sync_view(s: Sync) -> SyncV {
    match s {
        Sync::Answered(t) => SyncV::Answered(t@),
        Sync::Navigated(t, screen) => SyncV::Navigated(t@, screen),
        Sync::Parked(p) => match *p {
            Pending::Write { id, method, path, body } => SyncV::Write(id@, method@, path@, body@),
            Pending::Command { id, command } => SyncV::Command(id@, command@),
        },
    }
}

fn arg_of(args: &Json, key: &str) -> (r: String)
    ensures
        r@ == arg_text(args@, key@),
{
    match crate::json::get_str(args, key) {
        Some(t) => t.to_owned(),
        None => String::new(),
    }
}

/// Answer the tools that need nothing but the app itself. Writes and shell
/// commands never run from here: they come back parked, for the user to
/// approve.
pub fn run_sync_tool(id: &str, name: &str, arguments: &str) -> (r: Option<Sync>)
    ensures
        match sync_outcome(id@, name@, arguments@) {
            Some(o) => r is Some && sync_view(r->0) == o,
            None => r is None,
        },
{
    let args = match parse_json(arguments) {
        Some(v) => v,
        None => Json::Null,
    };
    if str_eq(name, "open_screen") {
        let asked = arg_of(&args, "screen");
        match screen_named(asked.as_str()) {
            Some(screen) => {
                let mut out: Vec<char> = Vec::new();
                push_str(&mut out, "Opened the ");
                push_str(&mut out, asked.as_str());
                push_str(&mut out, " screen.");
                Some(Sync::Navigated(string_of(&out), screen))
            },
            None => {
                let mut out: Vec<char> = Vec::new();
                push_str(&mut out, "error: no screen called ");
                push_str(&mut out, debug_str(asked.as_str()).as_str());
                push_str(&mut out, ". Pick one of: ");
                push_str(&mut out, SCREEN_NAMES);
                Some(Sync::Answered(string_of(&out)))
            },
        }
    } else if str_eq(name, "api_write") {
        let method = to_ascii_uppercase(arg_of(&args, "method").as_str());
        let path = arg_of(&args, "path");
        let pv = chars_of(path.as_str());
        let climbs = contains_chars(&pv, &chars_of(".."));
        if !starts_with_str(path.as_str(), "/api/v1/") || climbs {
            let mut out: Vec<char> = Vec::new();
            push_str(&mut out, "error: path must start with /api/v1/ and may not contain '..', got ");
            push_str(&mut out, debug_str(path.as_str()).as_str());
            return Some(Sync::Answered(string_of(&out)));
        }
        let m = method.as_str();
        if !(str_eq(m, "POST") || str_eq(m, "PATCH") || str_eq(m, "PUT") || str_eq(m, "DELETE")) {
            let mut out: Vec<char> = Vec::new();
            push_str(&mut out, "error: method must be POST, PATCH, PUT or DELETE, got ");
            push_str(&mut out, debug_str(m).as_str());
            return Some(Sync::Answered(string_of(&out)));
        }
        let body = match args.get("body") {
            Some(b) => crate::json::copy_json(b),
            None => {
                let none: Vec<(String, Json)> = Vec::new();
                proof {
                    crate::json::lemma_view_object(none);
                    assert(member_views(none@) =~= Seq::<(Seq<char>, JsonV)>::empty());
                }
                Json::Object(none)
            },
        };
        Some(Sync::Parked(Box::new(Pending::Write { id: id.to_owned(), method, path, body })))
    } else if str_eq(name, "run_command") {
        let command = arg_of(&args, "command");
        if is_blank(command.as_str()) {
            let mut out: Vec<char> = Vec::new();
            push_str(&mut out, "error: run_command needs {\"command\": \"\u{2026}\"}, got: ");
            push_str(&mut out, arguments);
            return Some(Sync::Answered(string_of(&out)));
        }
        Some(Sync::Parked(Box::new(Pending::Command { id: id.to_owned(), command })))
    } else {
        None
    }
}

/// Nothing that changes the user's data runs from here: a write or a command
/// the card can show comes back parked for the user's approval, with the call
/// it came from, and nothing but those two tools ever parks.
pub proof fn writes_and_commands_wait_for_the_user(id: Seq<char>, name: Seq<char>, arguments: Seq<char>)
    ensures
        match sync_outcome(id, name, arguments) {
            Some(SyncV::Write(i, _, _, _)) => name == "api_write"@ && i == id,
            Some(SyncV::Command(i, c)) => name == "run_command"@ && i == id && trim(c).len() > 0,
            _ => true,
        },
        name == "run_command"@ && trim(arg_text(call_arguments(arguments), "command"@)).len() > 0
            ==> sync_outcome(id, name, arguments) == Some(
            SyncV::Command(id, arg_text(call_arguments(arguments), "command"@)),
        ),
{
    reveal_strlit("open_screen");
    reveal_strlit("api_write");
    reveal_strlit("run_command");
    assert("run_command"@ != "open_screen"@) by {
        assert("run_command"@[0] != "open_screen"@[0]);
    }
    assert("run_command"@ != "api_write"@) by {
        assert("run_command"@.len() != "api_write"@.len());
    }
}

} // verus!
