//! The coder session's decisions: what each message does to the session, and
//! what it asks of the program around it (the stream, the tools, git, the
//! shell, the preview). The program performs the effects, in order, and hands
//! their outcomes back as messages.
use vstd::prelude::*;
use crate::assistant::{non_empty, non_empty_spec};
use crate::coder::{
    allowed_spec, checklist_reply, close_open, close_open_rows, command_of, command_spec, fill_open,
    label_for, label_for_spec, last_reply_spec, parse_todos, parse_todos_spec, resolve_open, rules_for,
    set_todos_reply, todo_views, turn_views, Autonomy, Dock, Pane, Pending, PlanMode, State, TermRun,
    ThreadSummary, Todo, Turn, TurnKind, TurnV,
};
use crate::coder_browser::{Cmd, DEFAULT_URL};
use crate::coder_git::{Changes, Checkpoint};
use crate::json::{Json, JsonV};
use crate::providers::ProviderEntry;
use crate::text::{
    chars_of, first_n, push_all, push_str, starts_with_str, str_eq, string_of, take_chars, trim,
    trim_end, trim_str,
};

verus! {

/// How long an agent's command may sit in the shell before the turn stops
/// waiting for it, in seconds.
pub const TERM_RUN_TIMEOUT: u32 = 180;

/// How much of a patch the review turn carries, in characters.
pub const MAX_REVIEW_CHARS: usize = 48000;


pub const HANDOFF_ASK: &'static str = "Write a handoff for a fresh session picking this work up. Cover: what we are trying to do, what is already done, what is left, the files that matter, and anything you learned the hard way. Write it as instructions to whoever continues, not as a report to me \u{2014} someone with none of this conversation has to be able to carry on from it alone.";

pub const REVIEW_ASK: &'static str = "Review this diff of the changes that were just made. Look for bugs, for anything the task asked for that is missing, and for anything that breaks this project's own rules. Be specific \u{2014} name the file and the line. If it is sound, say so in one line rather than inventing something.";

pub const BUSY_ROOT: &'static str = "Another session is running a turn in this folder. Wait for it, or run this one in its own checkout with Isolate.";

pub const NO_ROOT: &'static str = "Error: no workspace folder is open on the desktop.";

pub const UNANSWERED: &'static str = "the turn ended before this call was answered";

pub const SILENT: &'static str = "The model ended the turn without replying. That usually means the model cannot hold a tool loop \u{2014} pick a coding model in the header and try again.";

pub const SILENT_COMMANDS_OFF: &'static str = "The command was not run \u{2014} commands are off for this session. Turn them on in the header if the agent should be able to run things.";

pub const EMPTY_HANDOFF: &'static str = "The handoff came back empty, so the session was left alone. Try again, or start a new one and say where you got to.";

pub const TERM_CLOSED: &'static str = "(the terminal was closed before the command finished)";

pub const TERM_TIMED_OUT: &'static str = "(timed out after 180s \u{2014} the command is still running in the terminal)";

/// What a call the server is parked on is answered with when the user stops
/// the turn.
pub const STOPPED_CALL: &'static str = "Error: stopped by the user.";

pub const CUT_REVIEW: &'static str = "\n\n\u{2026} the rest of this diff was too long to include.";

/// What the stream says while a turn runs.
#[derive(Debug)]
pub enum Event {
    Assistant(String),
    /// The plan the turn opened with.
    Plan(String),
    ToolCall { call_id: String, name: String, arguments: Json },
    ToolResult { content: String },
    /// The server paused on a `run_command` until someone decides.
    ApprovalRequired { call_id: String, name: String, arguments: Json },
    Failed(String),
    Done,
}

/// A thread as the server hands it back when reopened.
#[derive(Debug)]
pub struct ThreadOut {
    pub thread_id: i64,
    pub workspace_root: Option<String>,
    pub model: Option<String>,
    pub messages: Vec<Json>,
}

/// A turn to stream.
#[derive(Debug, PartialEq, Eq)]
pub struct TurnRequest {
    pub message: String,
    pub thread_id: Option<i64>,
    pub workspace_root: Option<String>,
    pub allow_commands: bool,
    pub auto_approve_commands: bool,
    /// The server plans inside the turn ([`PlanMode::Inline`]).
    pub plan: bool,
    /// The turn is offered the tools (no tools for a tool-free turn).
    pub tools: bool,
    pub provider: Option<String>,
    pub model: Option<String>,
    pub kind: TurnKind,
}

/// A decision on a paused command, which resumes the turn.
#[derive(Debug, PartialEq, Eq)]
pub struct Decision {
    pub thread_id: i64,
    pub call_id: String,
    pub approve: bool,
    pub tools: bool,
    pub provider: Option<String>,
    pub model: Option<String>,
    pub kind: TurnKind,
}

/// What the session asks of the program around it, in order.
#[derive(Debug)]
pub enum Effect {
    ScrollToEnd,
    /// Fetch the past sessions.
    LoadThreads,
    /// Read the checkpoint timeline of the folder.
    LoadCheckpoints(String),
    /// Make sure the folder's checkpoint repository exists, before what follows.
    Baseline(String),
    /// Open a thread for the folder; the answer comes back as `ThreadOpened`.
    CreateThread(String),
    Stream(TurnRequest),
    Resume(Decision),
    /// Run a call of the agent's headless, and answer it with `ToolRan`.
    RunTool { root: String, call_id: String, name: String, arguments: Json, allow: bool },
    /// Type the agent's command into the user's shell, opening it first if needed.
    RunInTerminal { root: String, mark: String, command: String },
    /// Hand this back as `ToolRan`.
    ToolRan { call_id: String, result: String },
    PostToolResult { thread_id: i64, call_id: String, result: String },
    /// Answer the parked call with [`STOPPED_CALL`] as its result, so the
    /// server lets go of the turn.
    Unblock { thread_id: i64, call_id: String },
    /// Drop the stream.
    Abort,
    Commit { root: String, message: String },
    /// Hand back `Send`.
    Send,
    /// Walk the visible part of the tree again.
    RefreshTree,
    /// Forget which directories are open, then walk the tree again.
    ResetTree,
    /// Read a file of the workspace and hand it back as `Viewed`.
    ReadFile { path: String, focus: bool },
    WritePlan { root: String, plan: String },
    Diff { root: String, sha: String },
    Changes { root: String, sha: String },
    ReviewDiff { root: String, sha: String },
    Revert { root: String, sha: String, path: String },
    Restore { root: String, sha: String },
    OpenThread(i64),
    DeleteThread(i64),
    AddWorktree(String),
    MergeBack { main: String, worktree: String },
    OpenTerminal(String),
    CloseTerminal,
    TypeInTerminal(String),
    /// Look in the shell for the output between the marks.
    ScrapeTerminal(String),
    Browser(Cmd),
    /// Hand back `BrowserGo`.
    BrowserGo,
    OpenLink(String),
}

/// What the session is told.
#[derive(Debug)]
pub enum Message {
    TraceLogs(String),
    /// A folder was picked; whether it has an `AGENTS.md` and is a git
    /// repository were read off the disk.
    RootPicked { path: String, agents_md: bool, git_repo: bool },
    DraftChanged(String),
    /// Send what is in the composer. The prompt carries the composer's text as
    /// the turn will show it, `@mentions` expanded.
    Send(String),
    Stop,
    /// Stop the turn in flight and send what is in the composer instead.
    StopAndSend,
    /// Take a queued follow-up back into the composer.
    Unqueue(usize),
    ThreadOpened(Result<i64, String>),
    Event(Event),
    ToolRan { call_id: String, result: String },
    ToolPosted(Result<(), String>),
    ToggleTool(usize),
    Decide(bool),
    AlwaysAllow,
    SetAutonomy(Autonomy),
    SetPlanMode(PlanMode),
    ToggleFollow(bool),
    PlanEdited(String),
    /// Run the plan as it now reads; the prompt is [`State::plan_prompt`]
    /// with its `@mentions` expanded.
    PlanRun(String),
    PlanDiscard,
    Baselined(Result<(), String>),
    Committed(Result<bool, String>),
    CheckpointsLoaded(Result<Vec<Checkpoint>, String>),
    ReviewCheckpoint(String),
    DiffLoaded(Result<String, String>),
    ReviewTurn(String),
    ReviewDiffLoaded(Result<String, String>),
    ChangesLoaded(Result<Changes, String>),
    RevertFile(String),
    FileReverted(Result<(), String>),
    CloseReview,
    RestoreCheckpoint(String),
    Restored(Result<(), String>),
    ToggleFiles,
    SelectPane(Pane),
    SelectDock(Dock),
    /// A file was read for the viewer; `focus` brings its tab forward.
    Viewed { path: String, text: Result<String, String>, focus: bool },
    CloseFile,
    ToggleTerminal,
    TerminalOpened(Result<(), String>),
    /// The shell exited on its own.
    TerminalExited,
    SendToTerminal(String),
    /// What the shell shows between the marks of the command running there:
    /// its output and exit code, once it has finished.
    TerminalScraped(Option<(String, i32)>),
    ProviderChanged(String),
    ModelChanged(String),
    CatalogLoaded(Result<Vec<ProviderEntry>, String>),
    ThreadsLoaded(Result<Vec<ThreadSummary>, String>),
    OpenThread(i64),
    ThreadLoaded(Result<ThreadOut, String>),
    DeleteThread(i64),
    Tick,
    AnimTick,
    ToggleWorktree(bool),
    WorktreeReady(Result<String, String>),
    MergeBack,
    MergedBack(Result<(), String>),
    Fork,
    LinkClicked(String),
    DismissError,
    ToggleBrowser,
    BrowserUrlChanged(String),
    BrowserGo,
    BrowserBack,
    BrowserForward,
    BrowserReload,
    BrowserSync,
    BrowserOpenDefault,
    BrowserHide,
    BrowserDone(Result<(), String>),
}

// ---------------------------------------------------------------------------
// Pieces
// ---------------------------------------------------------------------------

pub open spec fn opt_text(o: Option<String>) -> Option<Seq<char>> {
    match o {
        Some(s) => Some(s@),
        None => None,
    }
}

pub open spec fn non_empty_is(s: Seq<char>, r: Option<String>) -> bool {
    opt_text(r) == non_empty_spec(s)
}

/// Whether `o` holds `s`.
pub open spec fn holds(o: Option<String>, s: Seq<char>) -> bool {
    o matches Some(x) && x@ == s
}

fn holds_exec(o: &Option<String>, s: &str) -> (r: bool)
    ensures
        r == holds(*o, s@),
{
    match o {
        Some(x) => str_eq(x.as_str(), s),
        None => false,
    }
}

/// The turn request for the session as it stands.
pub open spec fn request_for(st: State, r: TurnRequest) -> bool {
    &&& r.message == st.in_flight
    &&& r.thread_id == st.thread_id
    &&& r.workspace_root == st.root
    &&& r.allow_commands == (st.autonomy != Autonomy::Off)
    &&& r.auto_approve_commands == (st.autonomy == Autonomy::Auto)
    &&& r.plan == (st.plan_mode == PlanMode::Inline)
    &&& r.tools == (st.kind == TurnKind::Work)
    &&& non_empty_is(st.provider@, r.provider)
    &&& non_empty_is(st.model@, r.model)
    &&& r.kind == st.kind
}

fn turn_request(st: &State) -> (r: TurnRequest)
    ensures
        request_for(*st, r),
{
    TurnRequest {
        message: st.in_flight.clone(),
        thread_id: st.thread_id,
        workspace_root: st.root.clone(),
        allow_commands: st.autonomy.allows_commands(),
        auto_approve_commands: st.autonomy == Autonomy::Auto,
        plan: st.plan_mode == PlanMode::Inline,
        tools: !st.kind.tool_free(),
        provider: non_empty(st.provider.as_str()),
        model: non_empty(st.model.as_str()),
        kind: st.kind,
    }
}

/// The shell mark for a call: its ASCII letters and digits, at most sixteen.
pub open spec fn mark_of(call_id: Seq<char>) -> Seq<char>
    decreases call_id.len(),
{
    if call_id.len() == 0 {
        Seq::empty()
    } else {
        let head = mark_of(call_id.drop_last());
        let c = call_id.last();
        if head.len() < 16 && (('0' <= c && c <= '9') || ('a' <= c && c <= 'z') || ('A' <= c && c <= 'Z')) {
            head.push(c)
        } else {
            head
        }
    }
}

pub fn mark(call_id: &str) -> (r: String)
    ensures
        r@ == mark_of(call_id@),
{
    let v = chars_of(call_id);
    let mut out: Vec<char> = Vec::new();
    let mut i: usize = 0;
    while i < v.len()
        invariant
            i <= v@.len(),
            v@ == call_id@,
            out@ == mark_of(v@.take(i as int)),
        decreases v@.len() - i,
    {
        let c = v[i];
        assert(v@.take(i + 1).drop_last() =~= v@.take(i as int));
        assert(v@.take(i + 1).last() == c);
        if out.len() < 16 && (('0' <= c && c <= '9') || ('a' <= c && c <= 'z') || ('A' <= c && c <= 'Z')) {
            out.push(c);
        }
        i = i + 1;
    }
    assert(v@.take(i as int) =~= v@);
    string_of(&out)
}

/// The answer for a command that ran in the user's shell: its output, or a
/// note that there was none, and its exit code when that was not zero.
pub open spec fn terminal_result_spec(text: Seq<char>, code: i32) -> Seq<char> {
    let out = if trim(text).len() == 0 {
        "(no output)"@
    } else {
        text
    };
    if code != 0 {
        out + "\n(exit code "@ + crate::text::int_text(code as int) + ")"@
    } else {
        out
    }
}

pub fn terminal_result(text: &str, code: i32) -> (r: String)
    ensures
        r@ == terminal_result_spec(text@, code),
{
    let mut v: Vec<char> = Vec::new();
    if crate::text::is_blank(text) {
        push_str(&mut v, "(no output)");
    } else {
        push_str(&mut v, text);
    }
    if code != 0 {
        push_str(&mut v, "\n(exit code ");
        crate::text::push_i64(&mut v, code as i64);
        push_str(&mut v, ")");
    }
    string_of(&v)
}

/// The review turn's prompt for a patch: the ask, then the patch cut to
/// [`MAX_REVIEW_CHARS`] characters (with a note once it reaches that many),
/// fenced as a diff.
pub open spec fn review_prompt_spec(patch: Seq<char>) -> Seq<char> {
    let cut = first_n(patch, MAX_REVIEW_CHARS as nat);
    let body = if cut.len() == MAX_REVIEW_CHARS {
        cut + CUT_REVIEW@
    } else {
        cut
    };
    REVIEW_ASK@ + "\n\n```diff\n"@ + body + "\n```"@
}

pub fn review_prompt(patch: &str) -> (r: String)
    ensures
        r@ == review_prompt_spec(patch@),
{
    let v = chars_of(patch);
    let cut = take_chars(&v, MAX_REVIEW_CHARS);
    let mut out: Vec<char> = Vec::new();
    push_str(&mut out, REVIEW_ASK);
    push_str(&mut out, "\n\n```diff\n");
    push_all(&mut out, &cut);
    if cut.len() == MAX_REVIEW_CHARS {
        push_str(&mut out, CUT_REVIEW);
    }
    push_str(&mut out, "\n```");
    string_of(&out)
}

/// The composer after a queued follow-up is taken back: the follow-up alone
/// when the composer is blank, else after what is there and a line break.
pub open spec fn unqueued_draft(draft: Seq<char>, text: Seq<char>) -> Seq<char> {
    if trim(draft).len() == 0 {
        text
    } else {
        trim_end(draft) + "\n"@ + text
    }
}

/// Where follow mode opens a file: the path of a write, when following.
pub open spec fn follow_path(follow: bool, name: Seq<char>, args: JsonV) -> Option<Seq<char>> {
    if follow && (name == "write_file"@ || name == "edit_file"@) {
        match crate::json::get_spec(args, "path"@) {
            Some(JsonV::Str(p)) => Some(p),
            _ => None,
        }
    } else {
        None
    }
}

fn follow_path_exec(follow: bool, name: &str, args: &Json) -> (r: Option<String>)
    ensures
        opt_text(r) == follow_path(follow, name@, args@),
{
    if !follow || !(str_eq(name, "write_file") || str_eq(name, "edit_file")) {
        return None;
    }
    match args.get("path") {
        Some(Json::Str(p)) => Some(p.clone()),
        Some(Json::Array(a)) => {
            proof {
                crate::json::lemma_view_array(*a);
            }
            None
        },
        Some(Json::Object(m)) => {
            proof {
                crate::json::lemma_view_object(*m);
            }
            None
        },
        _ => None,
    }
}

/// The arguments of a `run_command` for this command.
fn command_args(command: &str) -> (r: Json)
    ensures
        r@ == JsonV::Object(seq![("command"@, JsonV::Str(command@))]),
{
    let mut m: Vec<(String, Json)> = Vec::new();
    m.push(("command".to_owned(), Json::Str(command.to_owned())));
    proof {
        crate::json::lemma_view_object(m);
        crate::json::lemma_member_views(m@);
    }
    assert(crate::json::member_views(m@) =~= seq![("command"@, JsonV::Str(command@))]);
    Json::Object(m)
}


// ---------------------------------------------------------------------------
// Starting and resuming turns
// ---------------------------------------------------------------------------

/// The session with a turn under way: its row added, its text kept, and
/// what the last turn left (its error, its silence, its stop) cleared.
pub open spec fn turn_begun(before: State, turns: Vec<Turn>, in_flight: String, kind: TurnKind) -> State {
    State {
        turns: turns,
        sending: true,
        kind: kind,
        error: None,
        answered: false,
        refused_for_commands_off: false,
        stopped: false,
        last_turn: None,
        elapsed: 0,
        in_flight: in_flight,
        ..before
    }
}

/// `before` starts a turn for `prompt`: with a folder open that is not among
/// the checkouts other sessions hold (`busy`), the prompt becomes a row and the turn's
/// text, and the checkpoint repository is made sure of before the turn is
/// streamed (on a new thread when there is none yet).
pub open spec fn started(before: State, busy: Seq<Seq<char>>, prompt: Seq<char>, kind: TurnKind, after: State, fx: Seq<Effect>) -> bool {
    match before.root {
        None => after == before && fx.len() == 0,
        Some(root) => if busy.contains(root@) {
            &&& after == (State { error: after.error, ..before })
            &&& holds(after.error, BUSY_ROOT@)
            &&& fx.len() == 0
        } else {
            &&& after == turn_begun(before, after.turns, after.in_flight, kind)
            &&& turn_views(after.turns@) == turn_views(before.turns@).push(TurnV::User(prompt))
            &&& after.in_flight@ == prompt
            &&& match before.thread_id {
                Some(_) => fx.len() == 3 && fx[0] == Effect::Baseline(root) && fx[1] is ScrollToEnd
                    && (fx[2] matches Effect::Stream(q) && request_for(after, q)),
                None => fx == seq![Effect::Baseline(root), Effect::CreateThread(root)],
            }
        },
    }
}

/// The session once the answer to a paused call has gone out: the turn is
/// running again, and the card stays until the server acts on the answer.
pub open spec fn resume_state(before: State) -> State {
    match before.thread_id {
        None => before,
        Some(_) => State {
            resuming: true,
            sending: true,
            answered: false,
            stopped: false,
            elapsed: 0,
            ..before
        },
    }
}

/// What answering the paused call `call_id` asks for: the decision, sent on
/// the session's thread with the turn's tools and model; nothing without a thread.
pub open spec fn resume_effects(before: State, call_id: String, approve: bool, fx: Seq<Effect>) -> bool {
    match before.thread_id {
        None => fx.len() == 0,
        Some(t) => {
            &&& fx.len() == 1
            &&& fx[0] matches Effect::Resume(d) && d.thread_id == t && d.call_id == call_id
                && d.approve == approve && d.tools == (before.kind == TurnKind::Work)
                && non_empty_is(before.provider@, d.provider) && non_empty_is(before.model@, d.model)
                && d.kind == before.kind
        },
    }
}

pub open spec fn resumed(before: State, call_id: String, approve: bool, after: State, fx: Seq<Effect>) -> bool {
    after == resume_state(before) && resume_effects(before, call_id, approve, fx)
}

fn contains_text(v: &Vec<String>, s: &str) -> (r: bool)
    ensures
        r == crate::text::texts(v@).contains(s@),
{
    let mut i: usize = 0;
    while i < v.len()
        invariant
            i <= v@.len(),
            forall|j: int| 0 <= j < i ==> (#[trigger] v@[j])@ != s@,
        decreases v@.len() - i,
    {
        if str_eq(v[i].as_str(), s) {
            assert(crate::text::texts(v@)[i as int] == s@);
            return true;
        }
        i = i + 1;
    }
    assert forall|j: int| 0 <= j < crate::text::texts(v@).len() implies crate::text::texts(v@)[j] != s@ by {
        assert(crate::text::texts(v@)[j] == v@[j]@);
    }
    false
}

fn push_turn(turns: &mut Vec<Turn>, t: Turn)
    ensures
        turn_views(final(turns)@) == turn_views(old(turns)@).push(t@),
{
    let ghost before = turns@;
    turns.push(t);
    assert(turn_views(turns@) =~= turn_views(before).push(t@));
}

impl State {
    /// Begin a turn for `prompt`.
    pub fn start_turn(self, busy: &Vec<String>, prompt: String, kind: TurnKind) -> (r: (State, Vec<Effect>))
        ensures
            started(self, crate::text::texts(busy@), prompt@, kind, r.0, r.1@),
    {
        let root = match &self.root {
            Some(r) => r.clone(),
            None => {
                return (self, Vec::new());
            },
        };
        if contains_text(busy, root.as_str()) {
            return (State { error: Some(BUSY_ROOT.to_owned()), ..self }, Vec::new());
        }
        let s = self.begun(prompt, kind);
        let mut fx: Vec<Effect> = Vec::new();
        fx.push(Effect::Baseline(root.clone()));
        match s.thread_id {
            Some(_) => {
                fx.push(Effect::ScrollToEnd);
                let q = turn_request(&s);
                fx.push(Effect::Stream(q));
            },
            None => {
                let ghost r0 = root;
                fx.push(Effect::CreateThread(root));
                assert(fx@ =~= seq![Effect::Baseline(r0), Effect::CreateThread(r0)]);
            },
        }
        (s, fx)
    }

    /// The session with a turn for `prompt` under way.
    fn begun(self, prompt: String, kind: TurnKind) -> (r: State)
        ensures
            r == turn_begun(self, r.turns, r.in_flight, kind),
            r.in_flight == prompt,
            turn_views(r.turns@) == turn_views(self.turns@).push(TurnV::User(prompt@)),
    {
        let mut turns = self.turns;
        push_turn(&mut turns, Turn::User(prompt.clone()));
        State {
            turns,
            sending: true,
            kind,
            error: None,
            answered: false,
            refused_for_commands_off: false,
            stopped: false,
            last_turn: None,
            elapsed: 0,
            in_flight: prompt,
            ..self
        }
    }

    /// Answer the paused call and pick the turn back up.
    pub fn resume(self, call_id: String, approve: bool) -> (r: (State, Vec<Effect>))
        ensures
            resumed(self, call_id, approve, r.0, r.1@),
    {
        let t = match self.thread_id {
            Some(t) => t,
            None => {
                return (self, Vec::new());
            },
        };
        let d = Decision {
            thread_id: t,
            call_id,
            approve,
            tools: !self.kind.tool_free(),
            provider: non_empty(self.provider.as_str()),
            model: non_empty(self.model.as_str()),
            kind: self.kind,
        };
        let s = State { resuming: true, sending: true, answered: false, stopped: false, elapsed: 0, ..self };
        let mut fx: Vec<Effect> = Vec::new();
        fx.push(Effect::Resume(d));
        (s, fx)
    }

    /// The prompt the plan card would run: `None` with no card, or a blank one.
    pub fn plan_prompt(&self) -> (r: Option<String>)
        ensures
            match self.plan_card {
                Some(c) => if trim(c@).len() == 0 {
                    r is None
                } else {
                    r matches Some(p) && p@ == "Carry out this plan:\n\n"@ + trim(c@)
                },
                None => r is None,
            },
    {
        match &self.plan_card {
            Some(c) => {
                let plan = trim_str(c.as_str());
                if chars_of(plan.as_str()).len() == 0 {
                    return None;
                }
                let mut v: Vec<char> = Vec::new();
                push_str(&mut v, "Carry out this plan:\n\n");
                push_str(&mut v, plan.as_str());
                Some(string_of(&v))
            },
            None => None,
        }
    }
}


// ---------------------------------------------------------------------------
// The composer and the queue
// ---------------------------------------------------------------------------

pub open spec fn would_queue_spec(st: State) -> bool {
    st.sending || st.pending is Some || st.plan_card is Some
}

/// The kind of turn a send starts: the plan, in gate mode; else the work.
pub open spec fn send_kind(m: PlanMode) -> TurnKind {
    if m == PlanMode::Gate {
        TurnKind::Plan
    } else {
        TurnKind::Work
    }
}

/// Sending the composer: nothing without text or a folder; queued behind a
/// turn that is running or waiting; else the composer empties into a turn
/// for `prompt` (the composer's text with its mentions expanded).
pub open spec fn sent(before: State, busy: Seq<Seq<char>>, prompt: Seq<char>, after: State, fx: Seq<Effect>) -> bool {
    let raw = trim(before.draft@);
    if raw.len() == 0 || before.root is None {
        after == before && fx.len() == 0
    } else if would_queue_spec(before) {
        &&& after == (State { queue: after.queue, draft: after.draft, ..before })
        &&& crate::text::texts(after.queue@) == crate::text::texts(before.queue@).push(raw)
        &&& after.draft@.len() == 0
        &&& fx.len() == 0
    } else {
        &&& after.draft@.len() == 0
        &&& started(State { draft: after.draft, ..before }, busy, prompt, send_kind(before.plan_mode), after, fx)
    }
}

/// The session with its turn stopped: the call it was parked on no longer
/// outstanding, the card gone, the rows still open closed as stopped, and
/// the queue left for the user.
pub open spec fn stop_state(before: State, turns: Vec<Turn>) -> State {
    State {
        stopped: true,
        term_run: None,
        kind: TurnKind::Work,
        drain_queued: false,
        outstanding: None,
        sending: false,
        resuming: false,
        pending: None,
        turns: turns,
        ..before
    }
}

/// What a stop asks for, in order: answer the parked call (so the server lets
/// go of the turn), drop the stream, checkpoint what the turn did, and walk
/// the tree again.
pub open spec fn stop_effects(before: State) -> Seq<Effect> {
    let unblock = match (before.outstanding, before.thread_id) {
        (Some(c), Some(t)) => seq![Effect::Unblock { thread_id: t, call_id: c }],
        _ => Seq::empty(),
    };
    let commit = match before.root {
        Some(root) => seq![Effect::Commit { root: root, message: before.in_flight }],
        None => Seq::empty(),
    };
    unblock + seq![Effect::Abort] + commit + seq![Effect::RefreshTree]
}

pub open spec fn stopped_spec(before: State, after: State, fx: Seq<Effect>) -> bool {
    if !before.sending {
        after == before && fx.len() == 0
    } else {
        &&& after == stop_state(before, after.turns)
        &&& turn_views(after.turns@) == close_open(turn_views(before.turns@), "stopped by you"@)
        &&& fx == stop_effects(before)
    }
}

/// The steer: the composer's text goes to the front of the queue, the turn
/// is stopped, and its checkpoint starts the correction.
pub open spec fn steered(before: State, after: State, fx: Seq<Effect>) -> bool {
    let raw = trim(before.draft@);
    if raw.len() == 0 || !before.sending {
        after == before && fx.len() == 0
    } else {
        let mid = State { queue: after.queue, draft: after.draft, ..before };
        &&& after == (State { drain_queued: true, ..stop_state(mid, after.turns) })
        &&& turn_views(after.turns@) == close_open(turn_views(before.turns@), "stopped by you"@)
        &&& crate::text::texts(after.queue@) == seq![raw] + crate::text::texts(before.queue@)
        &&& after.draft@.len() == 0
        &&& fx == stop_effects(before)
    }
}

pub open spec fn unqueued(before: State, idx: usize, after: State, fx: Seq<Effect>) -> bool {
    &&& fx.len() == 0
    &&& if idx >= before.queue@.len() {
        after == before
    } else {
        &&& after == (State { queue: after.queue, draft: after.draft, ..before })
        &&& after.queue@ == before.queue@.remove(idx as int)
        &&& after.draft@ == unqueued_draft(before.draft@, before.queue@[idx as int]@)
    }
}

fn queued_draft(draft: &str, text: String) -> (r: String)
    ensures
        r@ == unqueued_draft(draft@, text@),
{
    if crate::text::is_blank(draft) {
        text
    } else {
        let v = chars_of(draft);
        let mut out = crate::text::trim_end_chars(&v);
        let ghost head = out@;
        out.push('\n');
        push_str(&mut out, text.as_str());
        proof {
            reveal_strlit("\n");
            assert(out@ =~= head + "\n"@ + text@);
        }
        string_of(&out)
    }
}

// ---------------------------------------------------------------------------
// The stream
// ---------------------------------------------------------------------------

fn call_label_exec(marked: bool, name: &str, args: &Json) -> (r: String)
    ensures
        r@ == if marked {
            label_for_spec(name@, args@) + " \u{2014} allowed by rule"@
        } else {
            label_for_spec(name@, args@)
        },
{
    let label = label_for(name, args);
    if marked {
        let mut v = chars_of(label.as_str());
        push_str(&mut v, " \u{2014} allowed by rule");
        string_of(&v)
    } else {
        label
    }
}

/// The row a tool call opens, and how it is labelled.
pub open spec fn call_label(before: State, call_id: Seq<char>, name: Seq<char>, args: JsonV) -> Seq<char> {
    if holds(before.auto_approved, call_id) {
        label_for_spec(name, args) + " \u{2014} allowed by rule"@
    } else {
        label_for_spec(name, args)
    }
}

/// Where a tool call goes: the checklist (0), refused for want of a folder
/// (1), the user's shell (2), or the headless executor (3).
pub open spec fn call_route(before: State, call_id: Seq<char>, name: Seq<char>, args: JsonV) -> u8 {
    if name == "update_todos"@ {
        0
    } else if before.root is None {
        1
    } else if name == "run_command"@ && before.autonomy != Autonomy::Off && command_spec(args).len() > 0
        && mark_of(call_id).len() > 0 {
        2
    } else {
        3
    }
}

/// The session with the call's row open and the server parked on it.
pub open spec fn call_opened(before: State, call_id: String, name: Seq<char>, args: JsonV, after: State) -> bool {
    &&& after.auto_approved == (if holds(before.auto_approved, call_id@) {
        None
    } else {
        before.auto_approved
    })
    &&& after.outstanding == Some(call_id)
    &&& after == (State {
        auto_approved: after.auto_approved,
        turns: after.turns,
        outstanding: after.outstanding,
        todos: after.todos,
        following: after.following,
        term_run: after.term_run,
        dock: after.dock,
        ..before
    })
}

/// What a tool call does. The row opens and the server is parked on the call
/// from here. The checklist is answered from its own arguments; without a
/// folder the call is refused; a command the session may run goes to the
/// user's shell when its id gives a mark; anything else runs headless. In
/// every case the call gets its answer.
pub open spec fn called(
    before: State,
    call_id: String,
    name: String,
    args: Json,
    after: State,
    fx: Seq<Effect>,
) -> bool {
    &&& call_opened(before, call_id, name@, args@, after)
    &&& match call_route(before, call_id@, name@, args@) {
        0 => todo_called(before, call_id, name@, args@, after, fx),
        1 => rootless_called(before, call_id, name@, args@, after, fx),
        2 => terminal_called(before, call_id, name@, args@, after, fx),
        _ => headless_called(before, call_id, name, args, after, fx),
    }
}

pub open spec fn todo_called(before: State, call_id: String, name: Seq<char>, args: JsonV, after: State, fx: Seq<Effect>) -> bool {
    let items = parse_todos_spec(args);
    &&& turn_views(after.turns@) == turn_views(before.turns@).push(
        TurnV::Tool(call_label(before, call_id@, name, args), None),
    )
    &&& todo_views(after.todos@) == (if items.len() == 0 { todo_views(before.todos@) } else { items })
    &&& after.following == before.following && after.term_run == before.term_run
    &&& after.dock == before.dock
    &&& fx.len() == 2 && fx[0] is ScrollToEnd
    &&& fx[1] matches Effect::ToolRan { call_id: c, result } && c == call_id && result@ == set_todos_reply(items)
}

pub open spec fn rootless_called(before: State, call_id: String, name: Seq<char>, args: JsonV, after: State, fx: Seq<Effect>) -> bool {
    &&& turn_views(after.turns@) == turn_views(before.turns@).push(
        TurnV::Tool(call_label(before, call_id@, name, args), None),
    )
    &&& after.todos == before.todos && after.following == before.following
    &&& after.term_run == before.term_run && after.dock == before.dock
    &&& fx.len() == 1
    &&& fx[0] matches Effect::ToolRan { call_id: c, result } && c == call_id && result@ == NO_ROOT@
}

pub open spec fn terminal_called(before: State, call_id: String, name: Seq<char>, args: JsonV, after: State, fx: Seq<Effect>) -> bool {
    let command = command_spec(args);
    let m = mark_of(call_id@);
    &&& after.todos == before.todos
    &&& opt_text(after.following) == follow_path(before.follow, name, args)
    &&& turn_views(after.turns@) == turn_views(before.turns@).push(
        TurnV::Tool(call_label(before, call_id@, name, args) + " \u{2014} in the terminal"@, None),
    )
    &&& after.term_run matches Some(run) && run.call_id == call_id && run.mark@ == m
        && run.command@ == command && run.waited == 0
    &&& after.dock == Dock::Terminal
    &&& fx.len() == 2 && fx[1] is ScrollToEnd
    &&& fx[0] matches Effect::RunInTerminal { root: r, mark: mk, command: cm } && r == before.root->0
        && mk@ == m && cm@ == command
}

pub open spec fn headless_called(before: State, call_id: String, name: String, args: Json, after: State, fx: Seq<Effect>) -> bool {
    &&& after.todos == before.todos
    &&& opt_text(after.following) == follow_path(before.follow, name@, args@)
    &&& turn_views(after.turns@) == turn_views(before.turns@).push(
        TurnV::Tool(call_label(before, call_id@, name@, args@), None),
    )
    &&& after.term_run == before.term_run && after.dock == before.dock
    &&& fx == seq![
        Effect::ScrollToEnd,
        Effect::RunTool {
            root: before.root->0,
            call_id: call_id,
            name: name,
            arguments: args,
            allow: before.autonomy != Autonomy::Off,
        },
    ]
}

/// Whether a call's outcome reports a failure: the executor words its
/// failures as text starting `Error:`.
#[verifier::opaque]
pub open spec fn tool_failed(content: Seq<char>) -> bool {
    "Error:"@.is_prefix_of(content)
}

fn is_tool_error(content: &str) -> (r: bool)
    ensures
        r == tool_failed(content@),
{
    let r = starts_with_str(content, "Error:");
    proof {
        reveal(tool_failed);
    }
    r
}

/// What the outcome of a call does: it fills the oldest open row, and a
/// followed write that landed is opened.
pub open spec fn call_resolved(before: State, content: Seq<char>, after: State, fx: Seq<Effect>) -> bool {
    let failed = tool_failed(content);
    &&& after == (State { turns: after.turns, following: None, ..before })
    &&& turn_views(after.turns@) == fill_open(
        turn_views(before.turns@),
        if failed {
            Err(content)
        } else {
            Ok(content)
        },
    )
    &&& fx == resolve_effects(before.following, failed)
}

/// What a call's outcome asks for: the followed file opened when the write
/// landed, and the transcript scrolled.
pub open spec fn resolve_effects(following: Option<String>, failed: bool) -> Seq<Effect> {
    match following {
        Some(p) => if !failed {
            seq![Effect::ReadFile { path: p, focus: true }, Effect::ScrollToEnd]
        } else {
            seq![Effect::ScrollToEnd]
        },
        None => seq![Effect::ScrollToEnd],
    }
}

fn resolve_fx(following: &Option<String>, failed: bool) -> (r: Vec<Effect>)
    ensures
        r@ == resolve_effects(*following, failed),
{
    match following {
        Some(p) => if !failed {
            two(Effect::ReadFile { path: p.clone(), focus: true }, Effect::ScrollToEnd)
        } else {
            one(Effect::ScrollToEnd)
        },
        None => one(Effect::ScrollToEnd),
    }
}

fn stop_fx(st: &State) -> (r: Vec<Effect>)
    ensures
        r@ == stop_effects(*st),
{
    let mut fx: Vec<Effect> = Vec::new();
    match (&st.outstanding, st.thread_id) {
        (Some(c), Some(t)) => {
            fx.push(Effect::Unblock { thread_id: t, call_id: c.clone() });
        },
        _ => {},
    }
    fx.push(Effect::Abort);
    match &st.root {
        Some(root) => {
            fx.push(Effect::Commit { root: root.clone(), message: st.in_flight.clone() });
        },
        None => {},
    }
    fx.push(Effect::RefreshTree);
    assert(fx@ =~= stop_effects(*st));
    fx
}

/// What a pause for approval does. With commands off the call is refused on
/// the spot and the turn resumed; a command a saved rule (or `Auto`) covers is
/// approved on the spot; anything else waits on the card.
pub open spec fn paused(
    before: State,
    call_id: String,
    name: Seq<char>,
    args: JsonV,
    after: State,
    fx: Seq<Effect>,
) -> bool {
    let command = command_spec(args);
    let rules = match before.root {
        Some(p) => rules_for(before.allowlist@, p@),
        None => Seq::empty(),
    };
    if before.autonomy == Autonomy::Off {
        let mid = State { turns: after.turns, ..before };
        &&& turn_views(after.turns@) == turn_views(before.turns@).push(
            TurnV::Tool(label_for_spec(name, args), Some(Err("commands are off for this session"@))),
        )
        &&& after == (State { refused_for_commands_off: true, ..resume_state(mid) })
        &&& resume_effects(mid, call_id, false, fx)
    } else if command.len() > 0 && (before.autonomy == Autonomy::Auto || (before.autonomy
        == Autonomy::Allowlist && rules_allow(rules, command))) {
        let mid = State { auto_approved: Some(call_id), ..before };
        after == resume_state(mid) && resume_effects(mid, call_id, true, fx)
    } else {
        &&& after == (State { pending: after.pending, sending: false, ..before })
        &&& after.pending matches Some(p) && p.call_id == call_id && p.command@ == command
        &&& fx == seq![Effect::ScrollToEnd]
    }
}

/// Whether one of the rules covers the command.
pub open spec fn rules_allow(rules: Seq<Seq<char>>, command: Seq<char>) -> bool {
    let c = trim(command);
    !crate::coder::has_operator(c) && exists|i: int| 0 <= i < rules.len() && crate::coder::rule_covers(
        #[trigger] rules[i],
        c,
    )
}


/// A turn that failed: it is over, its open rows are closed, and a decision
/// that never reached the server says so and can be given again.
pub open spec fn failed_spec(before: State, e: Seq<char>, after: State, fx: Seq<Effect>) -> bool {
    &&& after == (State { sending: false, turns: after.turns, error: after.error, resuming: false, ..before })
    &&& turn_views(after.turns@) == close_open(turn_views(before.turns@), UNANSWERED@)
    &&& opt_text(after.error) == Some(
        if before.resuming {
            "The decision did not reach the server ("@ + e + "). Answer it again."@
        } else {
            e
        },
    )
    &&& fx.len() == 0
}

/// The rows once a turn is over: closed as unanswered where it ended with no
/// card up.
pub open spec fn done_rows(before: State) -> Seq<TurnV> {
    if before.pending is None {
        close_open(turn_views(before.turns@), UNANSWERED@)
    } else {
        turn_views(before.turns@)
    }
}

/// The banner once a turn is over: a turn that ended with no card up and
/// without a word is named out loud.
pub open spec fn done_error(before: State) -> Option<Seq<char>> {
    if before.pending is None && !before.answered {
        Some(
            if before.refused_for_commands_off {
                SILENT_COMMANDS_OFF@
            } else {
                SILENT@
            },
        )
    } else {
        opt_text(before.error)
    }
}

/// What the turn said, when it said anything.
pub open spec fn done_said(before: State) -> Option<Seq<char>> {
    if before.answered {
        Some(trim(last_reply_spec(done_rows(before))))
    } else {
        None
    }
}

/// The end of a turn. A plan turn puts its plan on the card; a handoff opens a
/// fresh session with the handoff in the composer (or says it came back
/// empty); any other turn walks the tree again and, with no card up and a
/// folder open, is checkpointed, the queue following the commit.
pub open spec fn done_spec(before: State, after: State, fx: Seq<Effect>) -> bool {
    let said = done_said(before);
    let has_said = said matches Some(t) && t.len() > 0;
    match before.kind {
        TurnKind::Plan => {
            &&& after == (State {
                sending: false,
                outstanding: None,
                turns: after.turns,
                error: after.error,
                kind: TurnKind::Work,
                plan_card: after.plan_card,
                threads_loading: true,
                ..before
            })
            &&& turn_views(after.turns@) == done_rows(before)
            &&& opt_text(after.error) == done_error(before)
            &&& if has_said {
                opt_text(after.plan_card) == said
            } else {
                after.plan_card == before.plan_card
            }
            &&& fx == seq![Effect::ScrollToEnd, Effect::LoadThreads]
        },
        TurnKind::Handoff => if has_said {
            &&& after.root == before.root && after.main_root == before.main_root
            &&& after.autonomy == before.autonomy && after.plan_mode == before.plan_mode
            &&& after.provider@ == before.provider@ && after.model@ == before.model@
            &&& after.thread_id is None && after.turns@.len() == 0 && after.queue@.len() == 0
            &&& !after.sending && after.pending is None && after.plan_card is None
            &&& after.kind == TurnKind::Work && after.error is None
            &&& opt_text(Some(after.draft)) == said
            &&& fx == seq![Effect::LoadThreads]
        } else {
            &&& after == (State {
                sending: false,
                outstanding: None,
                turns: after.turns,
                error: after.error,
                kind: TurnKind::Work,
                threads_loading: true,
                ..before
            })
            &&& turn_views(after.turns@) == done_rows(before)
            &&& opt_text(after.error) == Some(EMPTY_HANDOFF@)
            &&& fx == seq![Effect::LoadThreads]
        },
        _ => {
            let commit = before.pending is None && before.root is Some;
            &&& after == (State {
                sending: false,
                outstanding: None,
                turns: after.turns,
                error: after.error,
                kind: TurnKind::Work,
                drain_queued: if commit { true } else { before.drain_queued },
                threads_loading: true,
                ..before
            })
            &&& turn_views(after.turns@) == done_rows(before)
            &&& opt_text(after.error) == done_error(before)
            &&& fx == seq![Effect::RefreshTree, Effect::ScrollToEnd, Effect::LoadThreads] + if commit {
                seq![Effect::Commit { root: before.root->0, message: before.in_flight }]
            } else {
                Seq::empty()
            }
        },
    }
}

pub open spec fn tool_ran_spec(before: State, call_id: String, result: String, after: State, fx: Seq<Effect>) -> bool {
    match before.thread_id {
        None => after == before && fx.len() == 0,
        Some(t) => {
            &&& after == (State {
                outstanding: if holds(before.outstanding, call_id@) {
                    None
                } else {
                    before.outstanding
                },
                ..before
            })
            &&& fx == seq![Effect::PostToolResult { thread_id: t, call_id: call_id, result: result }]
        },
    }
}

pub open spec fn tool_posted_spec(before: State, r: Result<(), String>, after: State, fx: Seq<Effect>) -> bool {
    &&& fx.len() == 0
    &&& match r {
        Ok(()) => after == before,
        Err(e) => {
            &&& after == (State { sending: false, turns: after.turns, error: after.error, ..before })
            &&& turn_views(after.turns@) == close_open(turn_views(before.turns@), UNANSWERED@)
            &&& opt_text(after.error) == Some("Could not hand the tool result back: "@ + e@)
        },
    }
}

/// The row a refused command leaves.
pub open spec fn refused_label(command: Seq<char>) -> Seq<char> {
    if command.len() == 0 {
        "run_command (unreadable)"@
    } else {
        "$ "@ + command
    }
}

pub open spec fn decided(before: State, approve: bool, after: State, fx: Seq<Effect>) -> bool {
    match (before.pending, before.thread_id) {
        (Some(p), Some(_)) => if approve {
            resumed(before, p.call_id, true, after, fx)
        } else {
            let mid = State { turns: after.turns, ..before };
            &&& turn_views(after.turns@) == turn_views(before.turns@).push(
                TurnV::Tool(refused_label(p.command@), Some(Err("refused by the user"@))),
            )
            &&& resumed(mid, p.call_id, false, after, fx)
        },
        _ => after == before && fx.len() == 0,
    }
}

/// Approve the paused command and save the rule that answers it next time,
/// moving `Ask` up to `Allowlist` so the rule is consulted.
pub open spec fn always_allowed(before: State, after: State, fx: Seq<Effect>) -> bool {
    match before.pending {
        None => after == before && fx.len() == 0,
        Some(p) => {
            let rule = crate::coder::rule_for_spec(p.command@);
            if rule.len() == 0 {
                after == before && fx.len() == 0
            } else {
                let mid = State {
                    allowlist: after.allowlist,
                    autonomy: if before.autonomy == Autonomy::Ask {
                        Autonomy::Allowlist
                    } else {
                        before.autonomy
                    },
                    auto_approved: Some(p.call_id),
                    ..before
                };
                &&& match before.root {
                    Some(root) => forall|k: Seq<char>|
                        #[trigger] rules_for(after.allowlist@, k) == if k == root@ {
                            let old_rules = rules_for(before.allowlist@, root@);
                            if old_rules.contains(rule) {
                                old_rules
                            } else {
                                old_rules.push(rule)
                            }
                        } else {
                            rules_for(before.allowlist@, k)
                        },
                    None => after.allowlist == before.allowlist,
                }
                &&& resumed(mid, p.call_id, true, after, fx)
            }
        },
    }
}

/// One more second, saturating.
pub open spec fn tick(n: u32) -> u32 {
    if n < u32::MAX {
        (n + 1) as u32
    } else {
        n
    }
}

/// A second of the clock: the turn's time counts while it runs or waits on
/// someone, and a command in the user's shell is looked for (or given up on
/// when the shell is gone).
pub open spec fn ticked(before: State, after: State, fx: Seq<Effect>) -> bool {
    let elapsed = if before.sending || would_queue_spec(before) {
        tick(before.elapsed)
    } else {
        before.elapsed
    };
    match before.term_run {
        None => after == (State { elapsed: elapsed, ..before }) && fx.len() == 0,
        Some(run) => if !before.term_open {
            &&& after == (State { elapsed: elapsed, term_run: None, ..before })
            &&& fx.len() == 1
            &&& fx[0] matches Effect::ToolRan { call_id: c, result } && c == run.call_id && result@
                == TERM_CLOSED@
        } else {
            &&& after == (State {
                elapsed: elapsed,
                term_run: Some(TermRun { waited: tick(run.waited), ..run }),
                ..before
            })
            &&& fx == seq![Effect::ScrapeTerminal(run.mark)]
        },
    }
}

/// What the shell showed: a finished command answers its call; an unfinished
/// one past the time limit is given up on, and left running.
pub open spec fn scraped(before: State, out: Option<(String, i32)>, after: State, fx: Seq<Effect>) -> bool {
    match before.term_run {
        None => after == before && fx.len() == 0,
        Some(run) => match out {
            Some((text, code)) => {
                &&& after == (State { term_run: None, ..before })
                &&& fx.len() == 1
                &&& fx[0] matches Effect::ToolRan { call_id: c, result } && c == run.call_id
                    && result@ == terminal_result_spec(text@, code)
            },
            None => if run.waited >= TERM_RUN_TIMEOUT {
                &&& after == (State { term_run: None, ..before })
                &&& fx.len() == 1
                &&& fx[0] matches Effect::ToolRan { call_id: c, result } && c == run.call_id
                    && result@ == TERM_TIMED_OUT@
            } else {
                after == before && fx.len() == 0
            },
        },
    }
}

fn one(e: Effect) -> (r: Vec<Effect>)
    ensures
        r@ == seq![e],
{
    let mut v: Vec<Effect> = Vec::new();
    v.push(e);
    assert(v@ =~= seq![e]);
    v
}

fn two(a: Effect, b: Effect) -> (r: Vec<Effect>)
    ensures
        r@ == seq![a, b],
{
    let mut v: Vec<Effect> = Vec::new();
    v.push(a);
    v.push(b);
    assert(v@ =~= seq![a, b]);
    v
}

fn close_rows(turns: Vec<Turn>, reason: &str) -> (r: Vec<Turn>)
    ensures
        turn_views(r@) == close_open(turn_views(turns@), reason@),
{
    let mut t = turns;
    close_open_rows(&mut t, reason);
    t
}

fn fill_row(turns: Vec<Turn>, result: Result<String, String>) -> (r: Vec<Turn>)
    ensures
        turn_views(r@) == fill_open(
            turn_views(turns@),
            match result {
                Ok(t) => Ok(t@),
                Err(t) => Err(t@),
            },
        ),
{
    let mut t = turns;
    resolve_open(&mut t, result);
    t
}

fn with_turn(turns: Vec<Turn>, t: Turn) -> (r: Vec<Turn>)
    ensures
        turn_views(r@) == turn_views(turns@).push(t@),
{
    let mut v = turns;
    push_turn(&mut v, t);
    v
}


impl State {
    /// Send what is in the composer; `prompt` is its text with mentions expanded.
    pub fn on_send(self, busy: &Vec<String>, prompt: String) -> (r: (State, Vec<Effect>))
        ensures
            sent(self, crate::text::texts(busy@), prompt@, r.0, r.1@),
    {
        let raw = trim_str(self.draft.as_str());
        if chars_of(raw.as_str()).len() == 0 || self.root.is_none() {
            return (self, Vec::new());
        }
        if self.would_queue() {
            let mut queue = self.queue;
            let ghost q0 = queue@;
            queue.push(raw);
            proof {
                crate::text::lemma_texts_push(q0, queue@.last());
                assert(queue@ =~= q0.push(queue@.last()));
            }
            return (State { queue, draft: String::new(), ..self }, Vec::new());
        }
        let kind = if self.plan_mode == PlanMode::Gate {
            TurnKind::Plan
        } else {
            TurnKind::Work
        };
        let cleared = State { draft: String::new(), ..self };
        cleared.start_turn(busy, prompt, kind)
    }

    fn stop_parts(self) -> (r: (State, Vec<Effect>))
        requires
            self.sending,
        ensures
            stopped_spec(self, r.0, r.1@),
    {
        let fx = stop_fx(&self);
        let turns = close_rows(self.turns, "stopped by you");
        let s = State {
            stopped: true,
            term_run: None,
            kind: TurnKind::Work,
            drain_queued: false,
            outstanding: None,
            sending: false,
            resuming: false,
            pending: None,
            turns,
            ..self
        };
        (s, fx)
    }

    /// Stop the turn in flight.
    pub fn on_stop(self) -> (r: (State, Vec<Effect>))
        ensures
            stopped_spec(self, r.0, r.1@),
    {
        if !self.sending {
            return (self, Vec::new());
        }
        self.stop_parts()
    }

    /// Stop the turn in flight and send what is in the composer instead.
    pub fn on_steer(self) -> (r: (State, Vec<Effect>))
        ensures
            steered(self, r.0, r.1@),
    {
        let raw = trim_str(self.draft.as_str());
        if chars_of(raw.as_str()).len() == 0 || !self.sending {
            return (self, Vec::new());
        }
        let mut queue = self.queue;
        let ghost q0 = queue@;
        queue.insert(0, raw);
        proof {
            assert(crate::text::texts(queue@) =~= seq![queue@[0]@] + crate::text::texts(q0));
        }
        let mid = State { queue, draft: String::new(), ..self };
        let (s, fx) = mid.stop_parts();
        (State { drain_queued: true, ..s }, fx)
    }

    /// Take a queued follow-up back into the composer.
    pub fn on_unqueue(self, idx: usize) -> (r: (State, Vec<Effect>))
        ensures
            unqueued(self, idx, r.0, r.1@),
    {
        if idx >= self.queue.len() {
            return (self, Vec::new());
        }
        let mut queue = self.queue;
        let text = queue.remove(idx);
        let draft = queued_draft(self.draft.as_str(), text);
        (State { queue, draft, ..self }, Vec::new())
    }

    /// A thread was opened for the first turn.
    pub fn on_thread_opened(self, r: Result<i64, String>) -> (out: (State, Vec<Effect>))
        ensures
            match r {
                Ok(id) => {
                    let s = State { thread_id: Some(id), ..self };
                    &&& out.0 == s
                    &&& out.1@.len() == 2 && out.1@[0] is ScrollToEnd
                    &&& out.1@[1] matches Effect::Stream(q) && request_for(s, q)
                },
                Err(e) => out.0 == (State { sending: false, error: Some(e), ..self }) && out.1@.len() == 0,
            },
    {
        match r {
            Ok(id) => {
                let s = State { thread_id: Some(id), ..self };
                let q = turn_request(&s);
                (s, two(Effect::ScrollToEnd, Effect::Stream(q)))
            },
            Err(e) => (State { sending: false, error: Some(e), ..self }, Vec::new()),
        }
    }

    /// Something the model said; an empty step (one that only called a tool)
    /// adds no row. A plan is shown but is not the turn's answer.
    pub fn on_said(self, text: String, plan: bool) -> (r: (State, Vec<Effect>))
        ensures
            said_spec(self, text, plan, r.0, r.1@),
    {
        if crate::text::is_blank(text.as_str()) {
            return (self, Vec::new());
        }
        let answered = if plan {
            self.answered
        } else {
            true
        };
        let turns = with_turn(self.turns, Turn::Assistant(text));
        (State { answered, turns, ..self }, one(Effect::ScrollToEnd))
    }

    /// A tool call arrived.
    pub fn on_tool_call(self, call_id: String, name: String, arguments: Json) -> (r: (State, Vec<Effect>))
        ensures
            called(self, call_id, name, arguments, r.0, r.1@),
    {
        let marked = holds_exec(&self.auto_approved, call_id.as_str());
        let label = call_label_exec(marked, name.as_str(), &arguments);
        if str_eq(name.as_str(), "update_todos") {
            return self.todo_call(call_id, name.as_str(), label, &arguments);
        }
        if self.root.is_none() {
            return self.rootless_call(call_id, name.as_str(), &arguments, label);
        }
        let command = command_of(&arguments);
        let m = mark(call_id.as_str());
        if str_eq(name.as_str(), "run_command") && self.autonomy.allows_commands()
            && chars_of(command.as_str()).len() > 0 && chars_of(m.as_str()).len() > 0 {
            return self.terminal_call(call_id, name, &arguments, label, command, m);
        }
        self.headless_call(call_id, name, arguments, label)
    }

    fn todo_state(self, call_id: String, label: String, items: Vec<Todo>) -> (r: State)
        ensures
            r == (State {
                auto_approved: if holds(self.auto_approved, call_id@) {
                    None
                } else {
                    self.auto_approved
                },
                turns: r.turns,
                outstanding: Some(call_id),
                todos: r.todos,
                ..self
            }),
            turn_views(r.turns@) == turn_views(self.turns@).push(TurnV::Tool(label@, None)),
            todo_views(r.todos@) == (if items@.len() == 0 {
                todo_views(self.todos@)
            } else {
                todo_views(items@)
            }),
    {
        let auto_approved = if holds_exec(&self.auto_approved, call_id.as_str()) {
            None
        } else {
            self.auto_approved
        };
        let todos = if items.len() > 0 {
            items
        } else {
            self.todos
        };
        let turns = with_turn(self.turns, Turn::Tool { label, result: None });
        State { auto_approved, turns, outstanding: Some(call_id), todos, ..self }
    }

    fn todo_call(self, call_id: String, name: &str, label: String, arguments: &Json) -> (r: (State, Vec<Effect>))
        requires
            label@ == call_label(self, call_id@, name@, arguments@),
        ensures
            call_opened(self, call_id, name@, arguments@, r.0),
            todo_called(self, call_id, name@, arguments@, r.0, r.1@),
    {
        let (items, reply) = todos_and_reply(arguments);
        let fx = two(Effect::ScrollToEnd, Effect::ToolRan { call_id: call_id.clone(), result: reply });
        let st = self.todo_state(call_id, label, items);
        (st, fx)
    }

    fn rootless_call(self, call_id: String, name: &str, arguments: &Json, label: String) -> (r: (State, Vec<Effect>))
        requires
            label@ == call_label(self, call_id@, name@, arguments@),
        ensures
            call_opened(self, call_id, name@, arguments@, r.0),
            rootless_called(self, call_id, name@, arguments@, r.0, r.1@),
    {
        let auto_approved = if holds_exec(&self.auto_approved, call_id.as_str()) {
            None
        } else {
            self.auto_approved
        };
        let turns = with_turn(self.turns, Turn::Tool { label, result: None });
        let fx = one(Effect::ToolRan { call_id: call_id.clone(), result: NO_ROOT.to_owned() });
        (State { auto_approved, turns, outstanding: Some(call_id), ..self }, fx)
    }

    fn terminal_call(
        self,
        call_id: String,
        name: String,
        arguments: &Json,
        label: String,
        command: String,
        m: String,
    ) -> (r: (State, Vec<Effect>))
        requires
            self.root is Some,
            label@ == call_label(self, call_id@, name@, arguments@),
            command@ == command_spec(arguments@),
            m@ == mark_of(call_id@),
        ensures
            call_opened(self, call_id, name@, arguments@, r.0),
            terminal_called(self, call_id, name@, arguments@, r.0, r.1@),
    {
        let auto_approved = if holds_exec(&self.auto_approved, call_id.as_str()) {
            None
        } else {
            self.auto_approved
        };
        let root = match &self.root {
            Some(r) => r.clone(),
            None => String::new(),
        };
        let following = follow_path_exec(self.follow, name.as_str(), arguments);
        let mut v = chars_of(label.as_str());
        push_str(&mut v, " \u{2014} in the terminal");
        let turns = with_turn(self.turns, Turn::Tool { label: string_of(&v), result: None });
        let fx = two(Effect::RunInTerminal { root, mark: m.clone(), command: command.clone() }, Effect::ScrollToEnd);
        let run = TermRun { call_id: call_id.clone(), mark: m, command, waited: 0 };
        (
            State {
                auto_approved,
                turns,
                outstanding: Some(call_id),
                following,
                term_run: Some(run),
                dock: Dock::Terminal,
                ..self
            },
            fx,
        )
    }

    fn headless_call(self, call_id: String, name: String, arguments: Json, label: String) -> (r: (State, Vec<Effect>))
        requires
            self.root is Some,
            label@ == call_label(self, call_id@, name@, arguments@),
        ensures
            call_opened(self, call_id, name@, arguments@, r.0),
            headless_called(self, call_id, name, arguments, r.0, r.1@),
    {
        let auto_approved = if holds_exec(&self.auto_approved, call_id.as_str()) {
            None
        } else {
            self.auto_approved
        };
        let root = match &self.root {
            Some(r) => r.clone(),
            None => String::new(),
        };
        let following = follow_path_exec(self.follow, name.as_str(), &arguments);
        let allow = self.autonomy.allows_commands();
        let turns = with_turn(self.turns, Turn::Tool { label, result: None });
        let fx = two(
            Effect::ScrollToEnd,
            Effect::RunTool { root, call_id: call_id.clone(), name, arguments, allow },
        );
        (State { auto_approved, turns, outstanding: Some(call_id), following, ..self }, fx)
    }

    /// A call's outcome arrived.
    pub fn on_tool_result(self, content: String) -> (r: (State, Vec<Effect>))
        ensures
            call_resolved(self, content@, r.0, r.1@),
    {
        let failed = is_tool_error(content.as_str());
        let fx = resolve_fx(&self.following, failed);
        let result = if failed {
            Err(content)
        } else {
            Ok(content)
        };
        let mut turns = self.turns;
        resolve_open(&mut turns, result);
        (State { turns, following: None, ..self }, fx)
    }
}


fn failure_text(resuming: bool, e: String) -> (r: String)
    ensures
        r@ == if resuming {
            "The decision did not reach the server ("@ + e@ + "). Answer it again."@
        } else {
            e@
        },
{
    if resuming {
        let mut v: Vec<char> = Vec::new();
        push_str(&mut v, "The decision did not reach the server (");
        push_str(&mut v, e.as_str());
        push_str(&mut v, "). Answer it again.");
        string_of(&v)
    } else {
        e
    }
}

fn prefixed(prefix: &str, e: &str) -> (r: String)
    ensures
        r@ == prefix@ + e@,
{
    let mut v: Vec<char> = Vec::new();
    push_str(&mut v, prefix);
    push_str(&mut v, e);
    string_of(&v)
}

fn done_error_exec(st: &State) -> (r: Option<String>)
    ensures
        opt_text(r) == done_error(*st),
{
    if st.pending.is_none() && !st.answered {
        if st.refused_for_commands_off {
            Some(SILENT_COMMANDS_OFF.to_owned())
        } else {
            Some(SILENT.to_owned())
        }
    } else {
        st.error.clone()
    }
}

fn done_rows_exec(no_card: bool, turns: Vec<Turn>) -> (r: Vec<Turn>)
    ensures
        turn_views(r@) == if no_card {
            close_open(turn_views(turns@), UNANSWERED@)
        } else {
            turn_views(turns@)
        },
{
    if no_card {
        close_rows(turns, UNANSWERED)
    } else {
        turns
    }
}

fn done_fx(st: &State) -> (r: Vec<Effect>)
    ensures
        r@ == seq![Effect::RefreshTree, Effect::ScrollToEnd, Effect::LoadThreads] + if st.pending is None
            && st.root is Some {
            seq![Effect::Commit { root: st.root->0, message: st.in_flight }]
        } else {
            Seq::empty()
        },
{
    let mut fx: Vec<Effect> = Vec::new();
    fx.push(Effect::RefreshTree);
    fx.push(Effect::ScrollToEnd);
    fx.push(Effect::LoadThreads);
    if st.pending.is_none() {
        match &st.root {
            Some(root) => {
                fx.push(Effect::Commit { root: root.clone(), message: st.in_flight.clone() });
            },
            None => {},
        }
    }
    proof {
        if st.pending is None && st.root is Some {
            assert(fx@ =~= seq![Effect::RefreshTree, Effect::ScrollToEnd, Effect::LoadThreads] + seq![
                Effect::Commit { root: st.root->0, message: st.in_flight },
            ]);
        } else {
            assert(fx@ =~= seq![Effect::RefreshTree, Effect::ScrollToEnd, Effect::LoadThreads] + Seq::<
                Effect,
            >::empty());
        }
    }
    fx
}

/// The last thing the agent said on these rows, trimmed.
fn said_on(turns: &Vec<Turn>) -> (r: String)
    ensures
        r@ == trim(last_reply_spec(turn_views(turns@))),
{
    let ghost tv = turn_views(turns@);
    let mut k: usize = turns.len();
    assert(tv.take(k as int) =~= tv);
    while k > 0
        invariant
            k <= turns@.len(),
            tv == turn_views(turns@),
            last_reply_spec(tv) == last_reply_spec(tv.take(k as int)),
        decreases k,
    {
        assert(tv.take(k as int).drop_last() =~= tv.take(k - 1));
        assert(tv.take(k as int).last() == turns@[k - 1]@);
        match &turns[k - 1] {
            Turn::Assistant(t) => {
                return trim_str(t.as_str());
            },
            _ => {},
        }
        k = k - 1;
    }
    assert(tv.take(0) =~= Seq::<TurnV>::empty());
    proof {
        reveal_strlit("");
    }
    trim_str("")
}

impl State {
    /// The server paused on a command until someone decides.
    pub fn on_approval(self, call_id: String, name: String, arguments: Json) -> (r: (State, Vec<Effect>))
        ensures
            paused(self, call_id, name@, arguments@, r.0, r.1@),
    {
        if !self.autonomy.allows_commands() {
            let label = label_for(name.as_str(), &arguments);
            let turns = with_turn(
                self.turns,
                Turn::Tool { label, result: Some(Err("commands are off for this session".to_owned())) },
            );
            let mid = State { turns, ..self };
            let (s, fx) = mid.resume(call_id, false);
            return (State { refused_for_commands_off: true, ..s }, fx);
        }
        let command = command_of(&arguments);
        let covered = if chars_of(command.as_str()).len() == 0 {
            false
        } else {
            match self.autonomy {
                Autonomy::Auto => true,
                Autonomy::Allowlist => {
                    let rules = self.rules();
                    let ok = crate::coder::allowed_by_rule(rules, command.as_str());
                    proof {
                        let t = crate::text::texts(rules@);
                        assert forall|i: int| 0 <= i < rules@.len() implies #[trigger] t[i] == rules@[i]@ by {}
                        if ok {
                            let c = trim(command@);
                            let i = choose|i: int| 0 <= i < rules@.len() && crate::coder::rule_covers(#[trigger] rules@[i]@, c);
                            assert(crate::coder::rule_covers(t[i], c));
                        }
                        if rules_allow(t, command@) {
                            let c = trim(command@);
                            let i = choose|i: int| 0 <= i < t.len() && crate::coder::rule_covers(#[trigger] t[i], c);
                            assert(crate::coder::rule_covers(rules@[i]@, c));
                        }
                    }
                    ok
                },
                _ => false,
            }
        };
        if covered {
            let mid = State { auto_approved: Some(call_id.clone()), ..self };
            return mid.resume(call_id, true);
        }
        (State { pending: Some(Pending { call_id, command }), sending: false, ..self }, one(Effect::ScrollToEnd))
    }

    /// The turn failed.
    pub fn on_failed(self, e: String) -> (r: (State, Vec<Effect>))
        ensures
            failed_spec(self, e@, r.0, r.1@),
    {
        let error = failure_text(self.resuming, e);
        let turns = close_rows(self.turns, UNANSWERED);
        (State { sending: false, turns, error: Some(error), resuming: false, ..self }, Vec::new())
    }

    /// The turn is over.
    pub fn on_done(self) -> (r: (State, Vec<Effect>))
        ensures
            done_spec(self, r.0, r.1@),
    {
        let error = done_error_exec(&self);
        let fx_work = done_fx(&self);
        let commit = self.pending.is_none() && self.root.is_some();
        let kind = self.kind;
        let answered = self.answered;
        let turns = done_rows_exec(self.pending.is_none(), self.turns);
        let said = if answered {
            Some(said_on(&turns))
        } else {
            None
        };
        let has_said = match &said {
            Some(t) => chars_of(t.as_str()).len() > 0,
            None => false,
        };
        match kind {
            TurnKind::Plan => {
                let plan_card = if has_said {
                    said
                } else {
                    self.plan_card
                };
                (
                    State {
                        sending: false,
                        outstanding: None,
                        turns,
                        error,
                        kind: TurnKind::Work,
                        plan_card,
                        threads_loading: true,
                        ..self
                    },
                    two(Effect::ScrollToEnd, Effect::LoadThreads),
                )
            },
            TurnKind::Handoff => {
                if has_said {
                    let summary = match said {
                        Some(t) => t,
                        None => String::new(),
                    };
                    let ended = State { turns, ..self };
                    let fresh = crate::coder::fresh_from(&ended);
                    (State { draft: summary, ..fresh }, one(Effect::LoadThreads))
                } else {
                    (
                        State {
                            sending: false,
                            outstanding: None,
                            turns,
                            error: Some(EMPTY_HANDOFF.to_owned()),
                            kind: TurnKind::Work,
                            threads_loading: true,
                            ..self
                        },
                        one(Effect::LoadThreads),
                    )
                }
            },
            _ => {
                let drain_queued = if commit {
                    true
                } else {
                    self.drain_queued
                };
                (
                    State {
                        sending: false,
                        outstanding: None,
                        turns,
                        error,
                        kind: TurnKind::Work,
                        drain_queued,
                        threads_loading: true,
                        ..self
                    },
                    fx_work,
                )
            },
        }
    }

    /// A call ran on this machine; its result goes to the server.
    pub fn on_tool_ran(self, call_id: String, result: String) -> (r: (State, Vec<Effect>))
        ensures
            tool_ran_spec(self, call_id, result, r.0, r.1@),
    {
        let t = match self.thread_id {
            Some(t) => t,
            None => {
                return (self, Vec::new());
            },
        };
        let outstanding = if holds_exec(&self.outstanding, call_id.as_str()) {
            None
        } else {
            self.outstanding
        };
        (State { outstanding, ..self }, one(Effect::PostToolResult { thread_id: t, call_id, result }))
    }

    /// The result was handed back, or could not be.
    pub fn on_tool_posted(self, r: Result<(), String>) -> (out: (State, Vec<Effect>))
        ensures
            tool_posted_spec(self, r, out.0, out.1@),
    {
        match r {
            Ok(()) => (self, Vec::new()),
            Err(e) => {
                let error = prefixed("Could not hand the tool result back: ", e.as_str());
                let turns = close_rows(self.turns, UNANSWERED);
                (State { sending: false, turns, error: Some(error), ..self }, Vec::new())
            },
        }
    }
}


fn refused_label_exec(command: &str) -> (r: String)
    ensures
        r@ == refused_label(command@),
{
    if chars_of(command).len() == 0 {
        "run_command (unreadable)".to_owned()
    } else {
        prefixed("$ ", command)
    }
}

fn tick_exec(n: u32) -> (r: u32)
    ensures
        r == tick(n),
{
    if n < u32::MAX {
        n + 1
    } else {
        n
    }
}

impl State {
    /// Approve or refuse the paused command.
    pub fn on_decide(self, approve: bool) -> (r: (State, Vec<Effect>))
        ensures
            decided(self, approve, r.0, r.1@),
    {
        let (call_id, command) = match &self.pending {
            Some(p) => (p.call_id.clone(), p.command.clone()),
            None => {
                return (self, Vec::new());
            },
        };
        if self.thread_id.is_none() {
            return (self, Vec::new());
        }
        if approve {
            return self.resume(call_id, true);
        }
        let label = refused_label_exec(command.as_str());
        let turns = with_turn(self.turns, Turn::Tool { label, result: Some(Err("refused by the user".to_owned())) });
        let mid = State { turns, ..self };
        mid.resume(call_id, false)
    }

    /// Approve the paused command and save the rule that answers it next time.
    pub fn on_always_allow(self) -> (r: (State, Vec<Effect>))
        ensures
            always_allowed(self, r.0, r.1@),
    {
        let (call_id, command) = match &self.pending {
            Some(p) => (p.call_id.clone(), p.command.clone()),
            None => {
                return (self, Vec::new());
            },
        };
        let rule = crate::coder::rule_for(command.as_str());
        if chars_of(rule.as_str()).len() == 0 {
            return (self, Vec::new());
        }
        let mut allowlist = self.allowlist;
        match &self.root {
            Some(p) => {
                crate::coder::add_rule(&mut allowlist, p.clone(), rule);
            },
            None => {},
        }
        let autonomy = if self.autonomy == Autonomy::Ask {
            Autonomy::Allowlist
        } else {
            self.autonomy
        };
        let mid = State { allowlist, autonomy, auto_approved: Some(call_id.clone()), ..self };
        mid.resume(call_id, true)
    }

    /// A second of the clock.
    pub fn on_tick(self) -> (r: (State, Vec<Effect>))
        ensures
            ticked(self, r.0, r.1@),
    {
        let elapsed = if self.sending || self.would_queue() {
            tick_exec(self.elapsed)
        } else {
            self.elapsed
        };
        match self.term_run {
            None => (State { elapsed, ..self }, Vec::new()),
            Some(run) => {
                if !self.term_open {
                    let fx = one(Effect::ToolRan { call_id: run.call_id, result: TERM_CLOSED.to_owned() });
                    (State { elapsed, term_run: None, ..self }, fx)
                } else {
                    let fx = one(Effect::ScrapeTerminal(run.mark.clone()));
                    let waited = tick_exec(run.waited);
                    (State { elapsed, term_run: Some(TermRun { waited, ..run }), ..self }, fx)
                }
            },
        }
    }

    /// What the shell showed of the command running there.
    pub fn on_scraped(self, out: Option<(String, i32)>) -> (r: (State, Vec<Effect>))
        ensures
            scraped(self, out, r.0, r.1@),
    {
        let (call_id, waited) = match &self.term_run {
            Some(run) => (run.call_id.clone(), run.waited),
            None => {
                return (self, Vec::new());
            },
        };
        match out {
            Some((text, code)) => {
                let result = terminal_result(text.as_str(), code);
                (State { term_run: None, ..self }, one(Effect::ToolRan { call_id, result }))
            },
            None => if waited >= TERM_RUN_TIMEOUT {
                (
                    State { term_run: None, ..self },
                    one(Effect::ToolRan { call_id, result: TERM_TIMED_OUT.to_owned() }),
                )
            } else {
                (self, Vec::new())
            },
        }
    }
}


// ---------------------------------------------------------------------------
// Plans, checkpoints and review
// ---------------------------------------------------------------------------

/// The timeline is read again: with a folder, the session says it is loading.
pub open spec fn checkpoints_reloaded(before: State, after: State, fx: Seq<Effect>) -> bool {
    match before.root {
        None => after == before && fx.len() == 0,
        Some(r) => after == (State { checkpoints_loading: true, ..before }) && fx == seq![
            Effect::LoadCheckpoints(r),
        ],
    }
}

/// The queue advances once the turn's commit is taken: the next follow-up
/// goes into the composer and is sent, when the turn that ended was to
/// continue into the queue.
pub open spec fn queue_drained(before: State, after: State, fx: Seq<Effect>) -> bool {
    if before.drain_queued && before.queue@.len() > 0 {
        &&& after == (State { draft: before.queue@[0], queue: after.queue, drain_queued: false, ..before })
        &&& after.queue@ == before.queue@.drop_first()
        &&& fx == seq![Effect::Send]
    } else {
        after == (State { drain_queued: false, ..before }) && fx.len() == 0
    }
}

pub open spec fn plan_ran(before: State, busy: Seq<Seq<char>>, prompt: Seq<char>, after: State, fx: Seq<Effect>) -> bool {
    match before.plan_card {
        None => after == before && fx.len() == 0,
        Some(card) => {
            let mid = State { plan_card: None, ..before };
            if trim(card@).len() == 0 {
                after == mid && fx.len() == 0
            } else {
                match before.root {
                    None => started(mid, busy, prompt, TurnKind::Work, after, fx),
                    Some(root) => {
                        &&& fx.len() >= 1
                        &&& fx[0] matches Effect::WritePlan { root: r, plan } && r == root && plan@ == trim(card@)
                        &&& started(mid, busy, prompt, TurnKind::Work, after, fx.drop_first())
                    },
                }
            }
        },
    }
}

pub open spec fn committed_spec(before: State, r: Result<bool, String>, after: State, fx: Seq<Effect>) -> bool {
    match r {
        Ok(false) => queue_drained(before, after, fx),
        Ok(true) => {
            let marked = State { awaiting_turn_sha: true, ..before };
            exists|mid: State, a: Seq<Effect>, b: Seq<Effect>|
                checkpoints_reloaded(marked, mid, a) && queue_drained(mid, after, b) && fx == a + b
        },
        Err(e) => queue_drained(State { checkpoint_error: Some(e), ..before }, after, fx),
    }
}

pub open spec fn checkpoints_loaded_spec(before: State, r: Result<Vec<Checkpoint>, String>, after: State) -> bool {
    match r {
        Ok(list) => after == (State {
            awaiting_turn_sha: false,
            last_turn: if before.awaiting_turn_sha {
                if list@.len() > 0 {
                    Some(list@[0].sha)
                } else {
                    None
                }
            } else {
                before.last_turn
            },
            checkpoints: list,
            checkpoint_error: None,
            checkpoints_loading: false,
            ..before
        }),
        Err(e) => after == (State { checkpoint_error: Some(e), checkpoints_loading: false, ..before }),
    }
}

pub open spec fn review_opened(before: State, sha: String, after: State, fx: Seq<Effect>) -> bool {
    &&& after == (State {
        reviewing: Some((sha, None)),
        changes: None,
        restore_armed: None,
        dock: Dock::Diff,
        last_turn: if holds(before.last_turn, sha@) {
            None
        } else {
            before.last_turn
        },
        ..before
    })
    &&& fx == review_effects(before.root, sha)
}

/// The checkpoint's patch and file list, read from the folder.
pub open spec fn review_effects(root: Option<String>, sha: String) -> Seq<Effect> {
    match root {
        Some(root) => seq![Effect::Diff { root: root, sha: sha }, Effect::Changes { root: root, sha: sha }],
        None => Seq::empty(),
    }
}

fn review_fx(root: &Option<String>, sha: &String) -> (r: Vec<Effect>)
    ensures
        r@ == review_effects(*root, *sha),
{
    match root {
        Some(root) => two(
            Effect::Diff { root: root.clone(), sha: sha.clone() },
            Effect::Changes { root: root.clone(), sha: sha.clone() },
        ),
        None => Vec::new(),
    }
}

/// The folder put back to the checkpoint.
pub open spec fn restore_effects(root: Option<String>, sha: String) -> Seq<Effect> {
    match root {
        Some(root) => seq![Effect::Restore { root: root, sha: sha }],
        None => Seq::empty(),
    }
}

fn restore_fx(root: &Option<String>, sha: String) -> (r: Vec<Effect>)
    ensures
        r@ == restore_effects(*root, sha),
{
    match root {
        Some(root) => one(Effect::Restore { root: root.clone(), sha }),
        None => Vec::new(),
    }
}

pub open spec fn diff_loaded_spec(before: State, r: Result<String, String>, after: State) -> bool {
    match r {
        Ok(text) => after == (State {
            error: None,
            reviewing: match before.reviewing {
                Some((s, _)) => Some((s, Some(text))),
                None => None,
            },
            ..before
        }),
        Err(e) => {
            &&& after == (State { reviewing: None, error: after.error, ..before })
            &&& opt_text(after.error) == Some("Could not read that checkpoint: "@ + e@)
        },
    }
}

pub open spec fn review_diff_loaded_spec(before: State, busy: Seq<Seq<char>>, r: Result<String, String>, after: State, fx: Seq<Effect>) -> bool {
    match r {
        Ok(patch) => started(before, busy, review_prompt_spec(patch@), TurnKind::Review, after, fx),
        Err(e) => {
            &&& after == (State { error: after.error, ..before })
            &&& opt_text(after.error) == Some("Could not read that checkpoint: "@ + e@)
            &&& fx.len() == 0
        },
    }
}

pub open spec fn file_reverted_spec(before: State, r: Result<(), String>, after: State, fx: Seq<Effect>) -> bool {
    match r {
        Ok(()) => {
            let reread = reread_effects(before.viewing);
            exists|a: Seq<Effect>|
                checkpoints_reloaded(State { error: None, ..before }, after, a) && fx == seq![
                    Effect::RefreshTree,
                ] + reread + a
        },
        Err(e) => {
            &&& after == (State { error: after.error, ..before })
            &&& opt_text(after.error) == Some("Could not revert that file: "@ + e@)
            &&& fx.len() == 0
        },
    }
}

/// The file on screen read again.
pub open spec fn reread_effects(v: Option<(String, Result<String, String>)>) -> Seq<Effect> {
    match v {
        Some((p, _)) => seq![Effect::ReadFile { path: p, focus: false }],
        None => Seq::empty(),
    }
}

pub open spec fn restore_pressed(before: State, sha: String, after: State, fx: Seq<Effect>) -> bool {
    if !holds(before.restore_armed, sha@) {
        after == (State { restore_armed: Some(sha), ..before }) && fx.len() == 0
    } else {
        &&& after == (State { restore_armed: None, ..before })
        &&& fx == restore_effects(before.root, sha)
    }
}

pub open spec fn restored_spec(before: State, r: Result<(), String>, after: State, fx: Seq<Effect>) -> bool {
    match r {
        Ok(()) => checkpoints_reloaded(
            State { error: None, reviewing: None, changes: None, last_turn: None, ..before },
            after,
            fx,
        ),
        Err(e) => {
            &&& after == (State { error: after.error, ..before })
            &&& opt_text(after.error) == Some("Could not restore that checkpoint: "@ + e@)
            &&& fx.len() == 0
        },
    }
}

impl State {
    fn load_checkpoints(self) -> (r: (State, Vec<Effect>))
        ensures
            checkpoints_reloaded(self, r.0, r.1@),
    {
        match &self.root {
            Some(root) => {
                let fx = one(Effect::LoadCheckpoints(root.clone()));
                (State { checkpoints_loading: true, ..self }, fx)
            },
            None => (self, Vec::new()),
        }
    }

    fn drain(self) -> (r: (State, Vec<Effect>))
        ensures
            queue_drained(self, r.0, r.1@),
    {
        if self.drain_queued && self.queue.len() > 0 {
            self.drain_next()
        } else {
            self.drain_none()
        }
    }

    fn drain_none(self) -> (r: (State, Vec<Effect>))
        ensures
            r.0 == (State { drain_queued: false, ..self }) && r.1@.len() == 0,
    {
        (State { drain_queued: false, ..self }, Vec::new())
    }

    fn drain_next(self) -> (r: (State, Vec<Effect>))
        requires
            self.queue@.len() > 0,
        ensures
            r.0 == (State { draft: self.queue@[0], queue: r.0.queue, drain_queued: false, ..self }),
            r.0.queue@ == self.queue@.drop_first(),
            r.1@ == seq![Effect::Send],
    {
        let mut queue = self.queue;
        let draft = queue.remove(0);
        assert(queue@ =~= self.queue@.drop_first());
        (State { draft, queue, drain_queued: false, ..self }, one(Effect::Send))
    }

    /// Run the plan on the card; `prompt` is [`State::plan_prompt`] expanded.
    pub fn on_plan_run(self, busy: &Vec<String>, prompt: String) -> (r: (State, Vec<Effect>))
        ensures
            plan_ran(self, crate::text::texts(busy@), prompt@, r.0, r.1@),
    {
        let plan = match &self.plan_card {
            Some(c) => trim_str(c.as_str()),
            None => {
                return (self, Vec::new());
            },
        };
        let mid = State { plan_card: None, ..self };
        if chars_of(plan.as_str()).len() == 0 {
            return (mid, Vec::new());
        }
        match &mid.root {
            Some(root) => {
                let w = Effect::WritePlan { root: root.clone(), plan };
                let (s, rest) = mid.start_turn(busy, prompt, TurnKind::Work);
                let mut fx: Vec<Effect> = Vec::new();
                fx.push(w);
                let ghost restv = rest@;
                let mut rest = rest;
                fx.append(&mut rest);
                assert(fx@.drop_first() =~= restv);
                (s, fx)
            },
            None => mid.start_turn(busy, prompt, TurnKind::Work),
        }
    }

    pub fn on_committed(self, r: Result<bool, String>) -> (out: (State, Vec<Effect>))
        ensures
            committed_spec(self, r, out.0, out.1@),
    {
        match r {
            Ok(false) => self.drain(),
            Ok(true) => {
                let marked = State { awaiting_turn_sha: true, ..self };
                let (mid, a) = marked.load_checkpoints();
                let (s, b) = mid.drain();
                let ghost av = a@;
                let ghost bv = b@;
                let mut fx = a;
                let mut b = b;
                fx.append(&mut b);
                assert(fx@ =~= av + bv);
                (s, fx)
            },
            Err(e) => State { checkpoint_error: Some(e), ..self }.drain(),
        }
    }

    pub fn on_checkpoints_loaded(self, r: Result<Vec<Checkpoint>, String>) -> (out: State)
        ensures
            checkpoints_loaded_spec(self, r, out),
    {
        match r {
            Ok(list) => {
                let last_turn = if self.awaiting_turn_sha {
                    if list.len() > 0 {
                        Some(list[0].sha.clone())
                    } else {
                        None
                    }
                } else {
                    self.last_turn
                };
                State {
                    awaiting_turn_sha: false,
                    last_turn,
                    checkpoints: list,
                    checkpoint_error: None,
                    checkpoints_loading: false,
                    ..self
                }
            },
            Err(e) => State { checkpoint_error: Some(e), checkpoints_loading: false, ..self },
        }
    }

    pub fn on_review_checkpoint(self, sha: String) -> (r: (State, Vec<Effect>))
        ensures
            review_opened(self, sha, r.0, r.1@),
    {
        let last_turn = if holds_exec(&self.last_turn, sha.as_str()) {
            None
        } else {
            self.last_turn
        };
        let fx = review_fx(&self.root, &sha);
        (
            State {
                reviewing: Some((sha, None)),
                changes: None,
                restore_armed: None,
                dock: Dock::Diff,
                last_turn,
                ..self
            },
            fx,
        )
    }

    pub fn on_diff_loaded(self, r: Result<String, String>) -> (out: State)
        ensures
            diff_loaded_spec(self, r, out),
    {
        match r {
            Ok(text) => {
                let reviewing = match self.reviewing {
                    Some((s, _)) => Some((s, Some(text))),
                    None => None,
                };
                State { error: None, reviewing, ..self }
            },
            Err(e) => {
                let error = prefixed("Could not read that checkpoint: ", e.as_str());
                State { reviewing: None, error: Some(error), ..self }
            },
        }
    }

    pub fn on_review_diff_loaded(self, busy: &Vec<String>, r: Result<String, String>) -> (out: (State, Vec<Effect>))
        ensures
            review_diff_loaded_spec(self, crate::text::texts(busy@), r, out.0, out.1@),
    {
        match r {
            Ok(patch) => {
                let prompt = review_prompt(patch.as_str());
                self.start_turn(busy, prompt, TurnKind::Review)
            },
            Err(e) => {
                let error = prefixed("Could not read that checkpoint: ", e.as_str());
                (State { error: Some(error), ..self }, Vec::new())
            },
        }
    }

    pub fn on_file_reverted(self, r: Result<(), String>) -> (out: (State, Vec<Effect>))
        ensures
            file_reverted_spec(self, r, out.0, out.1@),
    {
        match r {
            Ok(()) => {
                let mut fx: Vec<Effect> = Vec::new();
                fx.push(Effect::RefreshTree);
                match &self.viewing {
                    Some((p, _)) => {
                        fx.push(Effect::ReadFile { path: p.clone(), focus: false });
                    },
                    None => {},
                }
                let ghost head = fx@;
                assert(head =~= seq![Effect::RefreshTree] + reread_effects(self.viewing));
                let (s, a) = State { error: None, ..self }.load_checkpoints();
                let ghost av = a@;
                let mut a = a;
                fx.append(&mut a);
                assert(fx@ =~= head + av);
                (s, fx)
            },
            Err(e) => {
                let error = prefixed("Could not revert that file: ", e.as_str());
                (State { error: Some(error), ..self }, Vec::new())
            },
        }
    }

    pub fn on_restore_checkpoint(self, sha: String) -> (r: (State, Vec<Effect>))
        ensures
            restore_pressed(self, sha, r.0, r.1@),
    {
        if !holds_exec(&self.restore_armed, sha.as_str()) {
            return self.arm_restore(sha);
        }
        self.restore(sha)
    }

    fn arm_restore(self, sha: String) -> (r: (State, Vec<Effect>))
        ensures
            r.0 == (State { restore_armed: Some(sha), ..self }) && r.1@.len() == 0,
    {
        (State { restore_armed: Some(sha), ..self }, Vec::new())
    }

    fn restore(self, sha: String) -> (r: (State, Vec<Effect>))
        ensures
            r.0 == (State { restore_armed: None, ..self }) && r.1@ == restore_effects(self.root, sha),
    {
        let fx = restore_fx(&self.root, sha);
        (State { restore_armed: None, ..self }, fx)
    }

    pub fn on_restored(self, r: Result<(), String>) -> (out: (State, Vec<Effect>))
        ensures
            restored_spec(self, r, out.0, out.1@),
    {
        match r {
            Ok(()) => State { error: None, reviewing: None, changes: None, last_turn: None, ..self }.load_checkpoints(),
            Err(e) => {
                let error = prefixed("Could not restore that checkpoint: ", e.as_str());
                (State { error: Some(error), ..self }, Vec::new())
            },
        }
    }
}


// ---------------------------------------------------------------------------
// Panels, the shell, past sessions, checkouts and the preview
// ---------------------------------------------------------------------------

/// A folder was picked: a new session on it, keeping the settings around the
/// conversation (tier, rules, plan mode, follow, model, the session list,
/// which panels are where, the preview); its tree is walked and its timeline read.
pub open spec fn root_picked_spec(before: State, path: Seq<char>, agents_md: bool, git_repo: bool, after: State, fx: Seq<Effect>) -> bool {
    &&& match after.root {
        Some(p) => trim(path).len() > 0 && p@ == trim(path),
        None => trim(path).len() == 0,
    }
    &&& after.agents_md == (agents_md && after.root is Some)
    &&& after.git_repo == (git_repo && after.root is Some)
    &&& after.autonomy == before.autonomy && after.allowlist == before.allowlist
    &&& after.plan_mode == before.plan_mode && after.follow == before.follow
    &&& after.catalog == before.catalog && after.provider == before.provider
    &&& after.model == before.model && after.threads == before.threads
    &&& after.files_open == before.files_open && after.pane == before.pane && after.dock == before.dock
    &&& after.browser_open == before.browser_open && after.browser_url == before.browser_url
    &&& after.browser_draft == before.browser_draft
    &&& after.turns@.len() == 0 && after.queue@.len() == 0 && after.thread_id is None
    &&& !after.sending && after.pending is None && after.plan_card is None
    &&& after.kind == TurnKind::Work && after.viewing is None && after.reviewing is None
    &&& after.checkpoints_loading == after.root is Some
    &&& fx == seq![Effect::RefreshTree] + match after.root {
        Some(r) => seq![Effect::LoadCheckpoints(r)],
        None => Seq::empty(),
    }
}

pub open spec fn terminal_toggled(before: State, after: State, fx: Seq<Effect>) -> bool {
    if before.term_open {
        after == (State { term_open: false, ..before }) && fx == seq![Effect::CloseTerminal]
    } else {
        after == (State { dock: Dock::Terminal, ..before }) && fx == match before.root {
            Some(r) => seq![Effect::OpenTerminal(r)],
            None => Seq::empty(),
        }
    }
}

/// The shell opened, or could not; a command of the agent's waiting on it
/// runs headless instead.
pub open spec fn terminal_opened_spec(before: State, r: Result<(), String>, after: State, fx: Seq<Effect>) -> bool {
    match r {
        Ok(()) => after == (State { term_open: true, error: None, ..before }) && fx.len() == 0,
        Err(e) => match before.term_run {
            None => after == (State { error: Some(e), ..before }) && fx.len() == 0,
            Some(run) => {
                &&& after == (State { error: Some(e), term_run: None, ..before })
                &&& fallback_ok(before.root, run.call_id, run.command@, fx)
            },
        },
    }
}

/// The agent's command, which could not go to the shell, run headless instead
/// (or refused for want of a folder).
pub open spec fn fallback_ok(root: Option<String>, call_id: String, command: Seq<char>, fx: Seq<Effect>) -> bool {
    &&& fx.len() == 1
    &&& match root {
        Some(root) => fx[0] matches Effect::RunTool { root: rt, call_id: c, name, arguments, allow }
            && rt == root && c == call_id && name@ == "run_command"@ && arguments@ == JsonV::Object(
            seq![("command"@, JsonV::Str(command))],
        ) && allow,
        None => fx[0] matches Effect::ToolRan { call_id: c, result } && c == call_id && result@ == NO_ROOT@,
    }
}

fn fallback_fx(root: &Option<String>, call_id: String, command: &str) -> (r: Vec<Effect>)
    ensures
        fallback_ok(*root, call_id, command@, r@),
{
    match root {
        Some(root) => one(
            Effect::RunTool {
                root: root.clone(),
                call_id,
                name: "run_command".to_owned(),
                arguments: command_args(command),
                allow: true,
            },
        ),
        None => one(Effect::ToolRan { call_id, result: NO_ROOT.to_owned() }),
    }
}

pub open spec fn typed_in_terminal(before: State, cmd: String, after: State, fx: Seq<Effect>) -> bool {
    &&& after == before
    &&& fx == (if !before.term_open && before.root is Some {
        seq![Effect::OpenTerminal(before.root->0)]
    } else {
        Seq::empty()
    }) + seq![Effect::TypeInTerminal(cmd)]
}

/// A past session opened: its folder and model come with it, its rows and
/// checklist are rebuilt from its history, and everything that belonged to
/// the session on screen goes.
#[verifier::opaque]
pub open spec fn thread_opened_spec(before: State, t: ThreadOut, after: State, fx: Seq<Effect>) -> bool {
    let root = match t.workspace_root {
        Some(r) => if trim(r@).len() > 0 {
            Some(r)
        } else {
            before.root
        },
        None => before.root,
    };
    let pinned = t.model matches Some(m) && trim(m@).len() > 0;
    &&& after == (State {
        root: root,
        provider: after.provider,
        model: after.model,
        thread_id: Some(t.thread_id),
        turns: after.turns,
        todos: after.todos,
        open_tools: after.open_tools,
        pending: None,
        plan_card: None,
        kind: TurnKind::Work,
        queue: after.queue,
        drain_queued: false,
        error: None,
        reviewing: None,
        changes: None,
        last_turn: None,
        restore_armed: None,
        delete_armed: None,
        viewing: None,
        checkpoints_loading: after.checkpoints_loading,
        ..before
    })
    &&& if pinned {
        after.model == t.model->0 && after.provider@ == crate::providers::provider_of_spec(before.catalog@, t.model->0@)
    } else {
        after.model == before.model && after.provider == before.provider
    }
    &&& turn_views(after.turns@) == crate::coder::rebuild_spec(crate::json::views(t.messages@))
    &&& todo_views(after.todos@) == crate::coder::todos_fold(crate::json::views(t.messages@))
    &&& after.open_tools@.len() == 0 && after.queue@.len() == 0
    &&& after.checkpoints_loading == (root is Some || before.checkpoints_loading)
    &&& fx == seq![Effect::ResetTree, Effect::ScrollToEnd] + match root {
        Some(r) => seq![Effect::LoadCheckpoints(r)],
        None => Seq::empty(),
    }
}

pub open spec fn delete_pressed(before: State, id: i64, after: State, fx: Seq<Effect>) -> bool {
    if before.delete_armed != Some(id) {
        after == (State { delete_armed: Some(id), ..before }) && fx.len() == 0
    } else {
        &&& after == (State {
            delete_armed: None,
            threads: after.threads,
            thread_id: if before.thread_id == Some(id) {
                None
            } else {
                before.thread_id
            },
            ..before
        })
        &&& after.threads@ == before.threads@.filter(|t: ThreadSummary| t.id != id)
        &&& fx == seq![Effect::DeleteThread(id)]
    }
}

pub open spec fn worktree_toggled(before: State, on: bool, after: State, fx: Seq<Effect>) -> bool {
    if before.sending {
        after == before && fx.len() == 0
    } else if !on {
        match before.main_root {
            Some(m) => after == (State { root: Some(m), main_root: None, ..before }) && fx == seq![
                Effect::RefreshTree,
            ],
            None => after == before && fx.len() == 0,
        }
    } else {
        &&& after == before
        &&& fx == match (before.root, before.main_root) {
            (Some(r), None) => seq![Effect::AddWorktree(r)],
            _ => Seq::empty(),
        }
    }
}

/// The preview's bar shows the page it is on; reopening goes back to it.
pub open spec fn browser_toggled(before: State, after: State, fx: Seq<Effect>) -> bool {
    if before.browser_open {
        after == (State { browser_open: false, ..before }) && fx == seq![Effect::Browser(Cmd::Hide)]
    } else {
        match browser_target(before) {
            None => after == (State { browser_open: true, ..before }) && fx.len() == 0,
            Some(u) => {
                &&& after == (State {
                    browser_open: true,
                    browser_url: after.browser_url,
                    browser_draft: after.browser_draft,
                    ..before
                })
                &&& after.browser_url@ == u && after.browser_draft@ == u
                &&& fx == seq![Effect::Browser(Cmd::Load(after.browser_url))]
            },
        }
    }
}

/// The page the preview opens on: where it was, else what the bar holds.
pub open spec fn browser_target(before: State) -> Option<Seq<char>> {
    if before.browser_url@.len() == 0 {
        crate::coder::normalize_url_spec(before.browser_draft@)
    } else {
        Some(before.browser_url@)
    }
}

fn browser_target_exec(st: &State) -> (r: Option<String>)
    ensures
        opt_text(r) == browser_target(*st),
{
    if chars_of(st.browser_url.as_str()).len() == 0 {
        crate::coder::normalize_url(st.browser_draft.as_str())
    } else {
        Some(st.browser_url.clone())
    }
}

pub open spec fn browser_went(before: State, after: State, fx: Seq<Effect>) -> bool {
    match crate::coder::normalize_url_spec(before.browser_draft@) {
        None => after == before && fx.len() == 0,
        Some(u) => {
            &&& after == (State {
                browser_open: true,
                browser_url: after.browser_url,
                browser_draft: after.browser_draft,
                ..before
            })
            &&& after.browser_url@ == u && after.browser_draft@ == u
            &&& fx == seq![Effect::Browser(Cmd::Load(after.browser_url))]
        },
    }
}

fn root_fx(root: &Option<String>) -> (r: Vec<Effect>)
    ensures
        r@ == match *root {
            Some(r) => seq![Effect::LoadCheckpoints(r)],
            None => Seq::<Effect>::empty(),
        },
{
    match root {
        Some(r) => one(Effect::LoadCheckpoints(r.clone())),
        None => Vec::new(),
    }
}

fn prepend(a: Vec<Effect>, b: Vec<Effect>) -> (r: Vec<Effect>)
    ensures
        r@ == a@ + b@,
{
    let mut out = a;
    let mut b = b;
    let ghost av = out@;
    let ghost bv = b@;
    out.append(&mut b);
    assert(out@ =~= av + bv);
    out
}

fn copy_url(s: &String) -> (r: String)
    ensures
        r == *s,
{
    s.clone()
}

impl State {
    pub fn on_root_picked(self, path: &str, agents_md: bool, git_repo: bool) -> (r: (State, Vec<Effect>))
        ensures
            root_picked_spec(self, path@, agents_md, git_repo, r.0, r.1@),
    {
        let fresh = State::with_root(path, agents_md, git_repo);
        let loading = fresh.root.is_some();
        let fx = prepend(one(Effect::RefreshTree), root_fx(&fresh.root));
        let s = State {
            autonomy: self.autonomy,
            allowlist: self.allowlist,
            plan_mode: self.plan_mode,
            follow: self.follow,
            catalog: self.catalog,
            provider: self.provider,
            model: self.model,
            threads: self.threads,
            files_open: self.files_open,
            pane: self.pane,
            dock: self.dock,
            browser_open: self.browser_open,
            browser_url: self.browser_url,
            browser_draft: self.browser_draft,
            checkpoints_loading: loading,
            ..fresh
        };
        (s, fx)
    }

    pub fn on_toggle_terminal(self) -> (r: (State, Vec<Effect>))
        ensures
            terminal_toggled(self, r.0, r.1@),
    {
        if self.term_open {
            self.close_terminal()
        } else {
            self.open_terminal()
        }
    }

    fn close_terminal(self) -> (r: (State, Vec<Effect>))
        ensures
            r.0 == (State { term_open: false, ..self }) && r.1@ == seq![Effect::CloseTerminal],
    {
        (State { term_open: false, ..self }, one(Effect::CloseTerminal))
    }

    fn open_terminal(self) -> (r: (State, Vec<Effect>))
        ensures
            r.0 == (State { dock: Dock::Terminal, ..self }) && r.1@ == match self.root {
                Some(r) => seq![Effect::OpenTerminal(r)],
                None => Seq::<Effect>::empty(),
            },
    {
        let fx = match &self.root {
            Some(r) => one(Effect::OpenTerminal(r.clone())),
            None => Vec::new(),
        };
        (State { dock: Dock::Terminal, ..self }, fx)
    }

    pub fn on_terminal_opened(self, r: Result<(), String>) -> (out: (State, Vec<Effect>))
        ensures
            terminal_opened_spec(self, r, out.0, out.1@),
    {
        match r {
            Ok(()) => (State { term_open: true, error: None, ..self }, Vec::new()),
            Err(e) => {
                if self.term_run.is_none() {
                    (State { error: Some(e), ..self }, Vec::new())
                } else {
                    self.terminal_fallback(e)
                }
            },
        }
    }

    fn terminal_fallback(self, e: String) -> (out: (State, Vec<Effect>))
        requires
            self.term_run is Some,
        ensures
            terminal_opened_spec(self, Err(e), out.0, out.1@),
    {
        let (call_id, command) = match &self.term_run {
            Some(run) => (run.call_id.clone(), run.command.clone()),
            None => (String::new(), String::new()),
        };
        let fx = fallback_fx(&self.root, call_id, command.as_str());
        (State { error: Some(e), term_run: None, ..self }, fx)
    }

    pub fn on_send_to_terminal(self, cmd: String) -> (r: (State, Vec<Effect>))
        ensures
            typed_in_terminal(self, cmd, r.0, r.1@),
    {
        let open = if !self.term_open {
            match &self.root {
                Some(r) => one(Effect::OpenTerminal(r.clone())),
                None => Vec::new(),
            }
        } else {
            Vec::new()
        };
        let fx = prepend(open, one(Effect::TypeInTerminal(cmd)));
        (self, fx)
    }

    pub fn on_provider_changed(self, v: String) -> (r: State)
        ensures
            provider_chosen(self, v, r),
    {
        let mut provider = self.provider;
        let mut model = self.model;
        let ghost v0 = v;
        crate::providers::choose_provider(&self.catalog, &mut provider, &mut model, v);
        let r = State { provider, model, ..self };
        proof {
            reveal(provider_chosen);
        }
        r
    }

    fn on_catalog(self, ps: Vec<ProviderEntry>) -> (r: State)
        ensures
            r == (State { catalog: r.catalog, ..self }),
            r.catalog@ == crate::providers::configured_spec(ps@),
    {
        let catalog = crate::providers::configured_only(ps);
        State { catalog, ..self }
    }

    fn on_thread_failed(self, e: String) -> (r: State)
        ensures
            r == (State { error: r.error, ..self }),
            opt_text(r.error) == Some("Could not open that session: "@ + e@),
    {
        let error = prefixed("Could not open that session: ", e.as_str());
        State { error: Some(error), ..self }
    }

    pub fn on_thread_loaded(self, t: ThreadOut) -> (r: (State, Vec<Effect>))
        ensures
            thread_opened_spec(self, t, r.0, r.1@),
    {
        let ThreadOut { thread_id, workspace_root, model, messages } = t;
        let root = match workspace_root {
            Some(r) => if crate::text::is_blank(r.as_str()) {
                self.root
            } else {
                Some(r)
            },
            None => self.root,
        };
        let pinned = match &model {
            Some(m) => !crate::text::is_blank(m.as_str()),
            None => false,
        };
        let (provider, model) = if pinned {
            let m = match model {
                Some(m) => m,
                None => String::new(),
            };
            (crate::providers::provider_of(self.catalog.as_slice(), m.as_str()), m)
        } else {
            (self.provider, self.model)
        };
        let turns = crate::coder::rebuild_turns(messages.as_slice());
        let todos = crate::coder::rebuild_todos(messages.as_slice());
        let loading = root.is_some() || self.checkpoints_loading;
        let fx = prepend(two(Effect::ResetTree, Effect::ScrollToEnd), root_fx(&root));
        let s = State {
            root,
            provider,
            model,
            thread_id: Some(thread_id),
            turns,
            todos,
            open_tools: Vec::new(),
            pending: None,
            plan_card: None,
            kind: TurnKind::Work,
            queue: Vec::new(),
            drain_queued: false,
            error: None,
            reviewing: None,
            changes: None,
            last_turn: None,
            restore_armed: None,
            delete_armed: None,
            viewing: None,
            checkpoints_loading: loading,
            ..self
        };
        proof {
            reveal(thread_opened_spec);
        }
        (s, fx)
    }

    pub fn on_delete_thread(self, id: i64) -> (r: (State, Vec<Effect>))
        ensures
            delete_pressed(self, id, r.0, r.1@),
    {
        if self.delete_armed != Some(id) {
            return self.arm_delete(id);
        }
        self.delete(id)
    }

    fn arm_delete(self, id: i64) -> (r: (State, Vec<Effect>))
        ensures
            r.0 == (State { delete_armed: Some(id), ..self }) && r.1@.len() == 0,
    {
        (State { delete_armed: Some(id), ..self }, Vec::new())
    }

    fn delete(self, id: i64) -> (r: (State, Vec<Effect>))
        ensures
            r.0 == (State {
                delete_armed: None,
                threads: r.0.threads,
                thread_id: if self.thread_id == Some(id) {
                    None
                } else {
                    self.thread_id
                },
                ..self
            }),
            r.0.threads@ == self.threads@.filter(|t: ThreadSummary| t.id != id),
            r.1@ == seq![Effect::DeleteThread(id)],
    {
        let mut kept: Vec<ThreadSummary> = Vec::new();
        let ghost all = self.threads@;
        let mut i: usize = 0;
        while i < self.threads.len()
            invariant
                i <= all.len(),
                all == self.threads@,
                kept@ == all.take(i as int).filter(|t: ThreadSummary| t.id != id),
            decreases all.len() - i,
        {
            let t = &self.threads[i];
            proof {
                reveal(Seq::filter);
            }
            assert(all.take(i + 1).drop_last() =~= all.take(i as int));
            assert(all.take(i + 1).last() == *t);
            if t.id != id {
                kept.push(ThreadSummary { id: t.id, title: t.title.clone() });
            }
            i = i + 1;
        }
        assert(all.take(i as int) =~= all);
        let thread_id = if self.thread_id == Some(id) {
            None
        } else {
            self.thread_id
        };
        (State { delete_armed: None, threads: kept, thread_id, ..self }, one(Effect::DeleteThread(id)))
    }

    pub fn on_toggle_worktree(self, on: bool) -> (r: (State, Vec<Effect>))
        ensures
            worktree_toggled(self, on, r.0, r.1@),
    {
        if self.sending {
            return (self, Vec::new());
        }
        if !on {
            if self.main_root.is_some() {
                return self.back_to_main();
            }
            return (self, Vec::new());
        }
        let fx = match (&self.root, &self.main_root) {
            (Some(r), None) => one(Effect::AddWorktree(r.clone())),
            _ => Vec::new(),
        };
        (self, fx)
    }

    fn back_to_main(self) -> (r: (State, Vec<Effect>))
        requires
            self.main_root is Some,
        ensures
            r.0 == (State { root: self.main_root, main_root: None, ..self }),
            r.1@ == seq![Effect::RefreshTree],
    {
        (State { root: self.main_root, main_root: None, ..self }, one(Effect::RefreshTree))
    }

    pub fn on_toggle_browser(self) -> (r: (State, Vec<Effect>))
        ensures
            browser_toggled(self, r.0, r.1@),
    {
        if self.browser_open {
            return self.hide_browser();
        }
        match browser_target_exec(&self) {
            None => self.open_browser_empty(),
            Some(u) => self.load_browser(u),
        }
    }

    fn hide_browser(self) -> (r: (State, Vec<Effect>))
        ensures
            r.0 == (State { browser_open: false, ..self }) && r.1@ == seq![Effect::Browser(Cmd::Hide)],
    {
        (State { browser_open: false, ..self }, one(Effect::Browser(Cmd::Hide)))
    }

    fn open_browser_empty(self) -> (r: (State, Vec<Effect>))
        ensures
            r.0 == (State { browser_open: true, ..self }) && r.1@.len() == 0,
    {
        (State { browser_open: true, ..self }, Vec::new())
    }

    fn load_browser(self, u: String) -> (r: (State, Vec<Effect>))
        ensures
            r.0 == (State { browser_open: true, browser_url: r.0.browser_url, browser_draft: r.0.browser_draft, ..self }),
            r.0.browser_url@ == u@ && r.0.browser_draft@ == u@,
            r.1@ == seq![Effect::Browser(Cmd::Load(r.0.browser_url))],
    {
        let draft = u.clone();
        let fx = one(Effect::Browser(Cmd::Load(u.clone())));
        (State { browser_open: true, browser_url: u, browser_draft: draft, ..self }, fx)
    }

    pub fn on_browser_go(self) -> (r: (State, Vec<Effect>))
        ensures
            browser_went(self, r.0, r.1@),
    {
        match crate::coder::normalize_url(self.browser_draft.as_str()) {
            None => (self, Vec::new()),
            Some(u) => self.load_browser(u),
        }
    }
}


// ---------------------------------------------------------------------------
// One message
// ---------------------------------------------------------------------------

/// What is left of a stopped turn arriving late: its frames, a tool that was
/// still running, the post of its result. All of it belongs to a turn that
/// is over.
pub open spec fn ignored(st: State, msg: Message) -> bool {
    st.stopped && (msg is Event || msg is ToolRan || msg is ToolPosted)
}

/// Any frame of a resumed stream but a failure is the server acting on the
/// decision, so the call it answered is no longer waiting.
pub open spec fn settled(st: State, msg: Message) -> State {
    if st.resuming && (msg matches Message::Event(e) && !(e is Failed)) {
        State { resuming: false, pending: None, ..st }
    } else {
        st
    }
}

/// The contract of [`State::step`].
#[verifier::opaque]
pub open spec fn updated(before: State, busy: Seq<Seq<char>>, msg: Message, after: State, fx: Seq<Effect>) -> bool {
    if ignored(before, msg) {
        after == before && fx.len() == 0
    } else {
        handled(settled(before, msg), busy, msg, after, fx)
    }
}

/// What each message does.
pub open spec fn handled(before: State, busy: Seq<Seq<char>>, msg: Message, after: State, fx: Seq<Effect>) -> bool {
    match msg {
        Message::TraceLogs(_) => after == before && fx.len() == 0,
        Message::RootPicked { path, agents_md, git_repo } => root_picked_spec(before, path@, agents_md, git_repo, after, fx),
        Message::DraftChanged(v) => after == (State { draft: v, ..before }) && fx.len() == 0,
        Message::Send(prompt) => sent(before, busy, prompt@, after, fx),
        Message::Stop => stopped_spec(before, after, fx),
        Message::StopAndSend => steered(before, after, fx),
        Message::Unqueue(idx) => unqueued(before, idx, after, fx),
        Message::ThreadOpened(Ok(id)) => {
            let s = State { thread_id: Some(id), ..before };
            &&& after == s
            &&& fx.len() == 2 && fx[0] is ScrollToEnd
            &&& fx[1] matches Effect::Stream(q) && request_for(s, q)
        },
        Message::ThreadOpened(Err(e)) => after == (State { sending: false, error: Some(e), ..before }) && fx.len() == 0,
        Message::Event(Event::Assistant(text)) => said_spec(before, text, false, after, fx),
        Message::Event(Event::Plan(text)) => said_spec(before, text, true, after, fx),
        Message::Event(Event::ToolCall { call_id, name, arguments }) => called(before, call_id, name, arguments, after, fx),
        Message::Event(Event::ToolResult { content }) => call_resolved(before, content@, after, fx),
        Message::Event(Event::ApprovalRequired { call_id, name, arguments }) => paused(before, call_id, name@, arguments@, after, fx),
        Message::Event(Event::Failed(e)) => failed_spec(before, e@, after, fx),
        Message::Event(Event::Done) => done_spec(before, after, fx),
        Message::ToolRan { call_id, result } => tool_ran_spec(before, call_id, result, after, fx),
        Message::ToolPosted(r) => tool_posted_spec(before, r, after, fx),
        Message::ToggleTool(idx) => {
            &&& crate::chat::toggled_open(before.open_tools@, after.open_tools@, idx)
            &&& after.open_tools@.no_duplicates() || !before.open_tools@.no_duplicates()
            &&& after == (State { open_tools: after.open_tools, ..before })
            &&& fx.len() == 0
        },
        Message::Decide(approve) => decided(before, approve, after, fx),
        Message::AlwaysAllow => always_allowed(before, after, fx),
        Message::SetAutonomy(m) => after == (State { autonomy: m, ..before }) && fx.len() == 0,
        Message::SetPlanMode(m) => after == (State {
            plan_mode: m,
            plan_card: if m == PlanMode::Gate { before.plan_card } else { None },
            ..before
        }) && fx.len() == 0,
        Message::ToggleFollow(on) => after == (State {
            follow: on,
            following: if on { before.following } else { None },
            ..before
        }) && fx.len() == 0,
        Message::PlanEdited(text) => after == (State {
            plan_card: if before.plan_card is Some { Some(text) } else { None },
            ..before
        }) && fx.len() == 0,
        Message::PlanRun(prompt) => plan_ran(before, busy, prompt@, after, fx),
        Message::PlanDiscard => after == (State { plan_card: None, ..before }) && fx.len() == 0,
        Message::Baselined(r) => after == (State {
            checkpoint_error: match r {
                Ok(()) => None,
                Err(e) => Some(e),
            },
            ..before
        }) && fx.len() == 0,
        Message::Committed(r) => committed_spec(before, r, after, fx),
        Message::CheckpointsLoaded(r) => checkpoints_loaded_spec(before, r, after) && fx.len() == 0,
        Message::ReviewCheckpoint(sha) => review_opened(before, sha, after, fx),
        Message::DiffLoaded(r) => diff_loaded_spec(before, r, after) && fx.len() == 0,
        Message::ReviewTurn(sha) => after == before && fx == match before.root {
            Some(root) => if !would_queue_spec(before) {
                seq![Effect::ReviewDiff { root: root, sha: sha }]
            } else {
                Seq::empty()
            },
            None => Seq::empty(),
        },
        Message::ReviewDiffLoaded(r) => review_diff_loaded_spec(before, busy, r, after, fx),
        Message::ChangesLoaded(Ok(c)) => after == (State { changes: Some(c), ..before }) && fx.len() == 0,
        Message::ChangesLoaded(Err(_)) => after == before && fx.len() == 0,
        Message::RevertFile(path) => after == before && fx == match (before.root, before.reviewing) {
            (Some(root), Some((sha, _))) => seq![Effect::Revert { root: root, sha: sha, path: path }],
            _ => Seq::empty(),
        },
        Message::FileReverted(r) => file_reverted_spec(before, r, after, fx),
        Message::CloseReview => after == (State {
            reviewing: None,
            changes: None,
            last_turn: None,
            restore_armed: None,
            ..before
        }) && fx.len() == 0,
        Message::RestoreCheckpoint(sha) => restore_pressed(before, sha, after, fx),
        Message::Restored(r) => restored_spec(before, r, after, fx),
        Message::ToggleFiles => {
            let pane = if before.files_open { Pane::Sessions } else { Pane::Files };
            after == (State { pane: pane, files_open: pane == Pane::Files, ..before }) && fx == seq![Effect::RefreshTree]
        },
        Message::SelectPane(pane) => after == (State { pane: pane, files_open: pane == Pane::Files, ..before })
            && fx == seq![Effect::RefreshTree],
        Message::SelectDock(d) => after == (State { dock: d, ..before }) && fx.len() == 0,
        Message::Viewed { path, text, focus } => after == (State {
            viewing: Some((path, text)),
            dock: if focus { Dock::File } else { before.dock },
            ..before
        }) && fx.len() == 0,
        Message::CloseFile => after == (State { viewing: None, ..before }) && fx.len() == 0,
        Message::ToggleTerminal => terminal_toggled(before, after, fx),
        Message::TerminalOpened(r) => terminal_opened_spec(before, r, after, fx),
        Message::TerminalExited => after == (State { term_open: false, ..before }) && fx == seq![Effect::RefreshTree],
        Message::SendToTerminal(cmd) => typed_in_terminal(before, cmd, after, fx),
        Message::TerminalScraped(out) => scraped(before, out, after, fx),
        Message::ProviderChanged(v) => provider_chosen(before, v, after) && fx.len() == 0,
        Message::ModelChanged(v) => after == (State { model: v, ..before }) && fx.len() == 0,
        Message::CatalogLoaded(Ok(ps)) => {
            &&& after == (State { catalog: after.catalog, ..before })
            &&& after.catalog@ == crate::providers::configured_spec(ps@)
            &&& fx.len() == 0
        },
        Message::CatalogLoaded(Err(_)) => after == before && fx.len() == 0,
        Message::ThreadsLoaded(Ok(t)) => after == (State { threads: t, threads_loading: false, ..before }) && fx.len() == 0,
        Message::ThreadsLoaded(Err(_)) => after == (State { threads_loading: false, ..before }) && fx.len() == 0,
        Message::OpenThread(id) => after == before && fx == (if before.sending {
            Seq::empty()
        } else {
            seq![Effect::OpenThread(id)]
        }),
        Message::ThreadLoaded(Ok(t)) => thread_opened_spec(before, t, after, fx),
        Message::ThreadLoaded(Err(e)) => {
            &&& after == (State { error: after.error, ..before })
            &&& opt_text(after.error) == Some("Could not open that session: "@ + e@)
            &&& fx.len() == 0
        },
        Message::DeleteThread(id) => delete_pressed(before, id, after, fx),
        Message::Tick => ticked(before, after, fx),
        Message::AnimTick => after == (State { frame: next_frame(before.frame), ..before }) && fx.len() == 0,
        Message::ToggleWorktree(on) => worktree_toggled(before, on, after, fx),
        Message::WorktreeReady(Ok(w)) => after == (State {
            main_root: before.root,
            root: Some(w),
            error: None,
            ..before
        }) && fx == seq![Effect::RefreshTree],
        Message::WorktreeReady(Err(e)) => {
            &&& after == (State { error: after.error, ..before })
            &&& opt_text(after.error) == Some("Could not make an isolated checkout: "@ + e@)
            &&& fx.len() == 0
        },
        Message::MergeBack => after == before && fx == match (before.main_root, before.root) {
            (Some(m), Some(w)) => seq![Effect::MergeBack { main: m, worktree: w }],
            _ => Seq::empty(),
        },
        Message::MergedBack(Ok(())) => after == (State { error: None, ..before }) && fx.len() == 0,
        Message::MergedBack(Err(e)) => {
            &&& after == (State { error: after.error, ..before })
            &&& opt_text(after.error) == Some("Could not merge that session back: "@ + e@)
            &&& fx.len() == 0
        },
        Message::Fork => if would_queue_spec(before) || before.thread_id is None {
            after == before && fx.len() == 0
        } else {
            started(before, busy, HANDOFF_ASK@, TurnKind::Handoff, after, fx)
        },
        Message::LinkClicked(url) => after == before && fx == (if "http://"@.is_prefix_of(url@)
            || "https://"@.is_prefix_of(url@) {
            seq![Effect::OpenLink(url)]
        } else {
            Seq::empty()
        }),
        Message::DismissError => after == (State { error: None, ..before }) && fx.len() == 0,
        Message::ToggleBrowser => browser_toggled(before, after, fx),
        Message::BrowserUrlChanged(v) => after == (State { browser_draft: v, ..before }) && fx.len() == 0,
        Message::BrowserGo => browser_went(before, after, fx),
        Message::BrowserBack => after == before && fx == seq![Effect::Browser(Cmd::Back)],
        Message::BrowserForward => after == before && fx == seq![Effect::Browser(Cmd::Forward)],
        Message::BrowserReload => after == before && fx == seq![Effect::Browser(Cmd::Reload)],
        Message::BrowserSync => after == before && fx == (if !before.browser_open || before.browser_url@.len() == 0 {
            Seq::empty()
        } else {
            seq![Effect::Browser(Cmd::Show)]
        }),
        Message::BrowserOpenDefault => {
            &&& after == (State { browser_draft: after.browser_draft, ..before })
            &&& after.browser_draft@ == DEFAULT_URL@
            &&& fx == seq![Effect::BrowserGo]
        },
        Message::BrowserHide => after == before && fx == seq![Effect::Browser(Cmd::Hide)],
        Message::BrowserDone(Ok(())) => after == (State { error: None, ..before }) && fx.len() == 0,
        Message::BrowserDone(Err(e)) => after == (State { browser_open: false, error: Some(e), ..before }) && fx.len() == 0,
    }
}

/// The provider picked: the model stays only where the new provider offers it.
#[verifier::opaque]
pub open spec fn provider_chosen(before: State, v: String, after: State) -> bool {
    &&& after == (State { provider: after.provider, model: after.model, ..before })
    &&& after.provider@ == v@
    &&& after.model@ == if crate::providers::keeps_model(before.catalog@, v@, before.model@) {
        before.model@
    } else {
        Seq::empty()
    }
}

/// Something the model said.
pub open spec fn said_spec(before: State, text: String, plan: bool, after: State, fx: Seq<Effect>) -> bool {
    if trim(text@).len() == 0 {
        after == before && fx.len() == 0
    } else {
        &&& after == (State {
            answered: if plan { before.answered } else { true },
            turns: after.turns,
            ..before
        })
        &&& turn_views(after.turns@) == turn_views(before.turns@).push(TurnV::Assistant(text@))
        &&& fx == seq![Effect::ScrollToEnd]
    }
}


/// The open rows after toggling `idx`: taken out where it was, added where
/// it was not.
fn toggle_index(v: Vec<usize>, idx: usize) -> (r: Vec<usize>)
    ensures
        crate::chat::toggled_open(v@, r@, idx),
        v@.no_duplicates() ==> r@.no_duplicates(),
{
    let mut found = false;
    let mut i: usize = 0;
    while i < v.len()
        invariant
            i <= v@.len(),
            found == exists|j: int| 0 <= j < i && v@[j] == idx,
        decreases v@.len() - i,
    {
        if v[i] == idx {
            found = true;
        }
        i = i + 1;
    }
    if !found {
        let ghost before = v@;
        let mut w = v;
        w.push(idx);
        proof {
            let after = w@;
            assert forall|x: usize| #[trigger] after.contains(x) == (if x == idx {
                !before.contains(idx)
            } else {
                before.contains(x)
            }) by {
                if before.contains(x) {
                    let k = choose|k: int| 0 <= k < before.len() && before[k] == x;
                    assert(after[k] == x);
                }
                if x == idx {
                    assert(after[before.len() as int] == x);
                }
                if after.contains(x) {
                    let k = choose|k: int| 0 <= k < after.len() && after[k] == x;
                    if k < before.len() {
                        assert(before[k] == x);
                    }
                }
            }
            if before.no_duplicates() {
                assert forall|j: int, k: int| 0 <= j < after.len() && 0 <= k < after.len() && j != k
                    implies after[j] != after[k] by {
                    if j < before.len() && k < before.len() {
                        assert(after[j] == before[j] && after[k] == before[k]);
                    } else if j < before.len() {
                        assert(after[j] == before[j]);
                    } else if k < before.len() {
                        assert(after[k] == before[k]);
                    }
                }
            }
        }
        return w;
    }
    let mut out: Vec<usize> = Vec::new();
    let mut k: usize = 0;
    while k < v.len()
        invariant
            k <= v@.len(),
            out@ == v@.take(k as int).filter(|x: usize| x != idx),
        decreases v@.len() - k,
    {
        proof {
            reveal(Seq::filter);
        }
        assert(v@.take(k + 1).drop_last() =~= v@.take(k as int));
        if v[k] != idx {
            out.push(v[k]);
        }
        k = k + 1;
    }
    assert(v@.take(k as int) =~= v@);
    proof {
        let before = v@;
        let after = out@;
        let f = |x: usize| x != idx;
        broadcast use vstd::seq_lib::group_filter_ensures;
        assert(before.contains(idx));
        assert forall|x: usize| #[trigger] after.contains(x) == (if x == idx {
            !before.contains(idx)
        } else {
            before.contains(x)
        }) by {
            if after.contains(x) {
                let j = choose|j: int| 0 <= j < after.len() && after[j] == x;
                before.lemma_filter_pred(f, j);
                before.lemma_filter_contains_rev(f, x);
            }
            if x != idx && before.contains(x) {
                let j = choose|j: int| 0 <= j < before.len() && before[j] == x;
                before.lemma_filter_contains(f, j);
            }
        }
        if before.no_duplicates() {
            lemma_filter_no_dup(before, idx);
        }
    }
    out
}

proof fn lemma_filter_no_dup(s: Seq<usize>, idx: usize)
    requires
        s.no_duplicates(),
    ensures
        s.filter(|x: usize| x != idx).no_duplicates(),
    decreases s.len(),
{
    reveal(Seq::filter);
    if s.len() > 0 {
        let t = s.drop_last();
        assert forall|j: int, k: int| 0 <= j < t.len() && 0 <= k < t.len() && j != k implies t[j] != t[k] by {
            assert(t[j] == s[j] && t[k] == s[k]);
        }
        lemma_filter_no_dup(t, idx);
        let f = |x: usize| x != idx;
        let p = t.filter(f);
        if f(s.last()) {
            broadcast use vstd::seq_lib::group_filter_ensures;
            assert(!t.contains(s.last())) by {
                if t.contains(s.last()) {
                    let j = choose|j: int| 0 <= j < t.len() && t[j] == s.last();
                    assert(s[j] == s[s.len() - 1]);
                }
            }
            assert(!p.contains(s.last())) by {
                if p.contains(s.last()) {
                    t.lemma_filter_contains_rev(f, s.last());
                }
            }
            let q = p.push(s.last());
            assert forall|j: int, k: int| 0 <= j < q.len() && 0 <= k < q.len() && j != k implies q[j] != q[k] by {
                if j < p.len() && k < p.len() {
                    assert(q[j] == p[j] && q[k] == p[k]);
                } else if j < p.len() {
                    assert(q[j] == p[j]);
                    assert(p.contains(p[j]));
                } else if k < p.len() {
                    assert(q[k] == p[k]);
                    assert(p.contains(p[k]));
                }
            }
        }
    }
}

/// Which part of [`State::handle`] takes a message.
fn msg_group(msg: &Message) -> (r: u8)
    ensures
        r == 0 ==> (*msg is TraceLogs || *msg is RootPicked || *msg is DraftChanged || *msg is Send || *msg is Stop || *msg is StopAndSend || *msg is Unqueue || *msg is ThreadOpened || *msg is Event || *msg is ToolRan || *msg is ToolPosted || *msg is ToggleTool || *msg is Decide || *msg is AlwaysAllow),
        r == 1 ==> (*msg is SetAutonomy || *msg is SetPlanMode || *msg is ToggleFollow || *msg is PlanEdited || *msg is PlanRun || *msg is PlanDiscard || *msg is Baselined || *msg is Committed || *msg is CheckpointsLoaded || *msg is ReviewCheckpoint || *msg is DiffLoaded || *msg is ReviewTurn || *msg is ReviewDiffLoaded || *msg is ChangesLoaded || *msg is RevertFile || *msg is FileReverted || *msg is CloseReview || *msg is RestoreCheckpoint || *msg is Restored),
        r == 2 ==> (*msg is ToggleFiles || *msg is SelectPane || *msg is SelectDock || *msg is Viewed || *msg is CloseFile || *msg is ToggleTerminal || *msg is TerminalOpened || *msg is TerminalExited || *msg is SendToTerminal || *msg is TerminalScraped),
        r == 3 ==> (*msg is ProviderChanged || *msg is ModelChanged || *msg is CatalogLoaded || *msg is ThreadsLoaded || *msg is OpenThread || *msg is ThreadLoaded || *msg is DeleteThread || *msg is Tick || *msg is AnimTick),
        r >= 4 ==> (*msg is ToggleWorktree || *msg is WorktreeReady || *msg is MergeBack || *msg is MergedBack || *msg is Fork || *msg is LinkClicked || *msg is DismissError || *msg is ToggleBrowser || *msg is BrowserUrlChanged || *msg is BrowserGo || *msg is BrowserBack || *msg is BrowserForward || *msg is BrowserReload || *msg is BrowserSync || *msg is BrowserOpenDefault || *msg is BrowserHide || *msg is BrowserDone),
{
    match msg {
        Message::TraceLogs { .. } => 0,
        Message::RootPicked { .. } => 0,
        Message::DraftChanged { .. } => 0,
        Message::Send { .. } => 0,
        Message::Stop { .. } => 0,
        Message::StopAndSend { .. } => 0,
        Message::Unqueue { .. } => 0,
        Message::ThreadOpened { .. } => 0,
        Message::Event { .. } => 0,
        Message::ToolRan { .. } => 0,
        Message::ToolPosted { .. } => 0,
        Message::ToggleTool { .. } => 0,
        Message::Decide { .. } => 0,
        Message::AlwaysAllow { .. } => 0,
        Message::SetAutonomy { .. } => 1,
        Message::SetPlanMode { .. } => 1,
        Message::ToggleFollow { .. } => 1,
        Message::PlanEdited { .. } => 1,
        Message::PlanRun { .. } => 1,
        Message::PlanDiscard { .. } => 1,
        Message::Baselined { .. } => 1,
        Message::Committed { .. } => 1,
        Message::CheckpointsLoaded { .. } => 1,
        Message::ReviewCheckpoint { .. } => 1,
        Message::DiffLoaded { .. } => 1,
        Message::ReviewTurn { .. } => 1,
        Message::ReviewDiffLoaded { .. } => 1,
        Message::ChangesLoaded { .. } => 1,
        Message::RevertFile { .. } => 1,
        Message::FileReverted { .. } => 1,
        Message::CloseReview { .. } => 1,
        Message::RestoreCheckpoint { .. } => 1,
        Message::Restored { .. } => 1,
        Message::ToggleFiles { .. } => 2,
        Message::SelectPane { .. } => 2,
        Message::SelectDock { .. } => 2,
        Message::Viewed { .. } => 2,
        Message::CloseFile { .. } => 2,
        Message::ToggleTerminal { .. } => 2,
        Message::TerminalOpened { .. } => 2,
        Message::TerminalExited { .. } => 2,
        Message::SendToTerminal { .. } => 2,
        Message::TerminalScraped { .. } => 2,
        Message::ProviderChanged { .. } => 3,
        Message::ModelChanged { .. } => 3,
        Message::CatalogLoaded { .. } => 3,
        Message::ThreadsLoaded { .. } => 3,
        Message::OpenThread { .. } => 3,
        Message::ThreadLoaded { .. } => 3,
        Message::DeleteThread { .. } => 3,
        Message::Tick { .. } => 3,
        Message::AnimTick { .. } => 3,
        Message::ToggleWorktree { .. } => 4,
        Message::WorktreeReady { .. } => 4,
        Message::MergeBack { .. } => 4,
        Message::MergedBack { .. } => 4,
        Message::Fork { .. } => 4,
        Message::LinkClicked { .. } => 4,
        Message::DismissError { .. } => 4,
        Message::ToggleBrowser { .. } => 4,
        Message::BrowserUrlChanged { .. } => 4,
        Message::BrowserGo { .. } => 4,
        Message::BrowserBack { .. } => 4,
        Message::BrowserForward { .. } => 4,
        Message::BrowserReload { .. } => 4,
        Message::BrowserSync { .. } => 4,
        Message::BrowserOpenDefault { .. } => 4,
        Message::BrowserHide { .. } => 4,
        Message::BrowserDone { .. } => 4,
    }
}

/// The spinner's next frame, wrapping.
pub open spec fn next_frame(f: u8) -> u8 {
    if f == 255 {
        0
    } else {
        (f + 1) as u8
    }
}

fn next_frame_exec(f: u8) -> (r: u8)
    ensures
        r == next_frame(f),
{
    if f == 255 {
        0
    } else {
        f + 1
    }
}

fn open_thread_fx(sending: bool, id: i64) -> (r: Vec<Effect>)
    ensures
        r@ == (if sending {
            Seq::<Effect>::empty()
        } else {
            seq![Effect::OpenThread(id)]
        }),
{
    if sending {
        Vec::new()
    } else {
        one(Effect::OpenThread(id))
    }
}

fn msg_is_session(msg: &Message) -> (r: bool)
    ensures
        r == (*msg is ProviderChanged || *msg is ModelChanged || *msg is CatalogLoaded || *msg is ThreadsLoaded
            || *msg is ThreadLoaded),
{
    match msg {
        Message::ProviderChanged(_) | Message::ModelChanged(_) | Message::CatalogLoaded(_)
        | Message::ThreadsLoaded(_) | Message::ThreadLoaded(_) => true,
        _ => false,
    }
}

fn is_web(url: &str) -> (r: bool)
    ensures
        r == ("http://"@.is_prefix_of(url@) || "https://"@.is_prefix_of(url@)),
{
    starts_with_str(url, "http://") || starts_with_str(url, "https://")
}

/// The checklist a call posts, and what the call is answered with.
fn todos_and_reply(arguments: &Json) -> (r: (Vec<Todo>, String))
    ensures
        todo_views(r.0@) == parse_todos_spec(arguments@),
        r.1@ == set_todos_reply(parse_todos_spec(arguments@)),
{
    let items = parse_todos(arguments);
    let reply = checklist_reply(&items);
    (items, reply)
}

impl State {
    /// Take one message and say what should happen next, in order.
    pub fn step(self, busy: &Vec<String>, msg: Message) -> (r: (State, Vec<Effect>))
        ensures
            updated(self, crate::text::texts(busy@), msg, r.0, r.1@),
    {
        proof {
            reveal(updated);
        }
        let late = match &msg {
            Message::Event(_) | Message::ToolRan { .. } | Message::ToolPosted(_) => true,
            _ => false,
        };
        if self.stopped && late {
            return (self, Vec::new());
        }
        let acted = match &msg {
            Message::Event(Event::Failed(_)) => false,
            Message::Event(_) => true,
            _ => false,
        };
        if self.resuming && acted {
            State { resuming: false, pending: None, ..self }.handle(busy, msg)
        } else {
            self.handle(busy, msg)
        }
    }

    /// What each message does to a session that takes it.
    pub fn handle(self, busy: &Vec<String>, msg: Message) -> (r: (State, Vec<Effect>))
        ensures
            handled(self, crate::text::texts(busy@), msg, r.0, r.1@),
    {
        match msg_group(&msg) {
            0 => self.handle_turn(busy, msg),
            1 => self.handle_review(busy, msg),
            2 => self.handle_panels(busy, msg),
            3 => if msg_is_session(&msg) {
                self.handle_sessions(busy, msg)
            } else {
                self.handle_clock(busy, msg)
            },
            _ => self.handle_rest(busy, msg),
        }
    }

    fn handle_turn(self, busy: &Vec<String>, msg: Message) -> (r: (State, Vec<Effect>))
        requires
            msg is TraceLogs || msg is RootPicked || msg is DraftChanged || msg is Send || msg is Stop || msg is StopAndSend || msg is Unqueue || msg is ThreadOpened || msg is Event || msg is ToolRan || msg is ToolPosted || msg is ToggleTool || msg is Decide || msg is AlwaysAllow,
        ensures
            handled(self, crate::text::texts(busy@), msg, r.0, r.1@),
    {
        match msg {
            Message::TraceLogs(_) => (self, Vec::new()),
            Message::RootPicked { path, agents_md, git_repo } => self.on_root_picked(path.as_str(), agents_md, git_repo),
            Message::DraftChanged(v) => (State { draft: v, ..self }, Vec::new()),
            Message::Send(prompt) => self.on_send(busy, prompt),
            Message::Stop => self.on_stop(),
            Message::StopAndSend => self.on_steer(),
            Message::Unqueue(idx) => self.on_unqueue(idx),
            Message::ThreadOpened(r) => self.on_thread_opened(r),
            Message::Event(Event::Assistant(text)) => self.on_said(text, false),
            Message::Event(Event::Plan(text)) => self.on_said(text, true),
            Message::Event(Event::ToolCall { call_id, name, arguments }) => self.on_tool_call(call_id, name, arguments),
            Message::Event(Event::ToolResult { content }) => self.on_tool_result(content),
            Message::Event(Event::ApprovalRequired { call_id, name, arguments }) => self.on_approval(call_id, name, arguments),
            Message::Event(Event::Failed(e)) => self.on_failed(e),
            Message::Event(Event::Done) => self.on_done(),
            Message::ToolRan { call_id, result } => self.on_tool_ran(call_id, result),
            Message::ToolPosted(r) => self.on_tool_posted(r),
            Message::ToggleTool(idx) => {
                let open_tools = toggle_index(self.open_tools, idx);
                (State { open_tools, ..self }, Vec::new())
            },
            Message::Decide(approve) => self.on_decide(approve),
            Message::AlwaysAllow => self.on_always_allow(),
            _ => (self, Vec::new()),
        }
    }

    fn handle_review(self, busy: &Vec<String>, msg: Message) -> (r: (State, Vec<Effect>))
        requires
            msg is SetAutonomy || msg is SetPlanMode || msg is ToggleFollow || msg is PlanEdited || msg is PlanRun || msg is PlanDiscard || msg is Baselined || msg is Committed || msg is CheckpointsLoaded || msg is ReviewCheckpoint || msg is DiffLoaded || msg is ReviewTurn || msg is ReviewDiffLoaded || msg is ChangesLoaded || msg is RevertFile || msg is FileReverted || msg is CloseReview || msg is RestoreCheckpoint || msg is Restored,
        ensures
            handled(self, crate::text::texts(busy@), msg, r.0, r.1@),
    {
        match msg {
            Message::SetAutonomy(m) => (State { autonomy: m, ..self }, Vec::new()),
            Message::SetPlanMode(m) => {
                let plan_card = if m == PlanMode::Gate {
                    self.plan_card
                } else {
                    None
                };
                (State { plan_mode: m, plan_card, ..self }, Vec::new())
            },
            Message::ToggleFollow(on) => {
                let following = if on {
                    self.following
                } else {
                    None
                };
                (State { follow: on, following, ..self }, Vec::new())
            },
            Message::PlanEdited(text) => {
                let plan_card = if self.plan_card.is_some() {
                    Some(text)
                } else {
                    None
                };
                (State { plan_card, ..self }, Vec::new())
            },
            Message::PlanRun(prompt) => self.on_plan_run(busy, prompt),
            Message::PlanDiscard => (State { plan_card: None, ..self }, Vec::new()),
            Message::Baselined(r) => {
                let checkpoint_error = match r {
                    Ok(()) => None,
                    Err(e) => Some(e),
                };
                (State { checkpoint_error, ..self }, Vec::new())
            },
            Message::Committed(r) => self.on_committed(r),
            Message::CheckpointsLoaded(r) => (self.on_checkpoints_loaded(r), Vec::new()),
            Message::ReviewCheckpoint(sha) => self.on_review_checkpoint(sha),
            Message::DiffLoaded(r) => (self.on_diff_loaded(r), Vec::new()),
            Message::ReviewTurn(sha) => {
                let fx = match &self.root {
                    Some(root) => if !self.would_queue() {
                        one(Effect::ReviewDiff { root: root.clone(), sha })
                    } else {
                        Vec::new()
                    },
                    None => Vec::new(),
                };
                (self, fx)
            },
            Message::ReviewDiffLoaded(r) => self.on_review_diff_loaded(busy, r),
            Message::ChangesLoaded(Ok(c)) => (State { changes: Some(c), ..self }, Vec::new()),
            Message::ChangesLoaded(Err(_)) => (self, Vec::new()),
            Message::RevertFile(path) => {
                let fx = match (&self.root, &self.reviewing) {
                    (Some(root), Some((sha, _))) => one(Effect::Revert { root: root.clone(), sha: sha.clone(), path }),
                    _ => Vec::new(),
                };
                (self, fx)
            },
            Message::FileReverted(r) => self.on_file_reverted(r),
            Message::CloseReview => (
                State { reviewing: None, changes: None, last_turn: None, restore_armed: None, ..self },
                Vec::new(),
            ),
            Message::RestoreCheckpoint(sha) => self.on_restore_checkpoint(sha),
            Message::Restored(r) => self.on_restored(r),
            _ => (self, Vec::new()),
        }
    }

    fn handle_panels(self, busy: &Vec<String>, msg: Message) -> (r: (State, Vec<Effect>))
        requires
            msg is ToggleFiles || msg is SelectPane || msg is SelectDock || msg is Viewed || msg is CloseFile || msg is ToggleTerminal || msg is TerminalOpened || msg is TerminalExited || msg is SendToTerminal || msg is TerminalScraped,
        ensures
            handled(self, crate::text::texts(busy@), msg, r.0, r.1@),
    {
        match msg {
            Message::ToggleFiles => {
                let pane = if self.files_open {
                    Pane::Sessions
                } else {
                    Pane::Files
                };
                let files_open = pane == Pane::Files;
                (State { pane, files_open, ..self }, one(Effect::RefreshTree))
            },
            Message::SelectPane(pane) => {
                let files_open = pane == Pane::Files;
                (State { pane, files_open, ..self }, one(Effect::RefreshTree))
            },
            Message::SelectDock(d) => (State { dock: d, ..self }, Vec::new()),
            Message::Viewed { path, text, focus } => {
                let dock = if focus {
                    Dock::File
                } else {
                    self.dock
                };
                (State { viewing: Some((path, text)), dock, ..self }, Vec::new())
            },
            Message::CloseFile => (State { viewing: None, ..self }, Vec::new()),
            Message::ToggleTerminal => self.on_toggle_terminal(),
            Message::TerminalOpened(r) => self.on_terminal_opened(r),
            Message::TerminalExited => (State { term_open: false, ..self }, one(Effect::RefreshTree)),
            Message::SendToTerminal(cmd) => self.on_send_to_terminal(cmd),
            Message::TerminalScraped(out) => self.on_scraped(out),
            _ => (self, Vec::new()),
        }
    }

    fn handle_sessions(self, busy: &Vec<String>, msg: Message) -> (r: (State, Vec<Effect>))
        requires
            msg is ProviderChanged || msg is ModelChanged || msg is CatalogLoaded || msg is ThreadsLoaded || msg is ThreadLoaded,
        ensures
            handled(self, crate::text::texts(busy@), msg, r.0, r.1@),
    {
        match &msg {
            Message::ModelChanged(_) => self.on_model_msg(busy, msg),
            Message::CatalogLoaded(_) => self.on_catalog_msg(busy, msg),
            Message::ThreadsLoaded(_) => self.on_threads_msg(busy, msg),
            Message::ThreadLoaded(_) => self.on_thread_msg(busy, msg),
            _ => self.on_provider_msg(busy, msg),
        }
    }

    fn handle_clock(self, busy: &Vec<String>, msg: Message) -> (r: (State, Vec<Effect>))
        requires
            msg is OpenThread || msg is DeleteThread || msg is Tick || msg is AnimTick,
        ensures
            handled(self, crate::text::texts(busy@), msg, r.0, r.1@),
    {
        match msg {
            Message::OpenThread(id) => {
                let fx = open_thread_fx(self.sending, id);
                (self, fx)
            },
            Message::DeleteThread(id) => self.on_delete_thread(id),
            Message::Tick => self.on_tick(),
            Message::AnimTick => {
                let frame = next_frame_exec(self.frame);
                (State { frame, ..self }, Vec::new())
            },


            _ => (self, Vec::new()),
        }
    }

    fn handle_rest(self, busy: &Vec<String>, msg: Message) -> (r: (State, Vec<Effect>))
        requires
            msg is ToggleWorktree || msg is WorktreeReady || msg is MergeBack || msg is MergedBack || msg is Fork || msg is LinkClicked || msg is DismissError || msg is ToggleBrowser || msg is BrowserUrlChanged || msg is BrowserGo || msg is BrowserBack || msg is BrowserForward || msg is BrowserReload || msg is BrowserSync || msg is BrowserOpenDefault || msg is BrowserHide || msg is BrowserDone,
        ensures
            handled(self, crate::text::texts(busy@), msg, r.0, r.1@),
    {
        match msg {
            Message::ToggleWorktree(on) => self.on_toggle_worktree(on),
            Message::WorktreeReady(Ok(w)) => (
                State { main_root: self.root, root: Some(w), error: None, ..self },
                one(Effect::RefreshTree),
            ),
            Message::WorktreeReady(Err(e)) => {
                let error = prefixed("Could not make an isolated checkout: ", e.as_str());
                (State { error: Some(error), ..self }, Vec::new())
            },
            Message::MergeBack => {
                let fx = match (&self.main_root, &self.root) {
                    (Some(m), Some(w)) => one(Effect::MergeBack { main: m.clone(), worktree: w.clone() }),
                    _ => Vec::new(),
                };
                (self, fx)
            },
            Message::MergedBack(Ok(())) => (State { error: None, ..self }, Vec::new()),
            Message::MergedBack(Err(e)) => {
                let error = prefixed("Could not merge that session back: ", e.as_str());
                (State { error: Some(error), ..self }, Vec::new())
            },
            Message::Fork => {
                if self.would_queue() || self.thread_id.is_none() {
                    (self, Vec::new())
                } else {
                    self.start_turn(busy, HANDOFF_ASK.to_owned(), TurnKind::Handoff)
                }
            },
            Message::LinkClicked(url) => {
                let fx = if is_web(url.as_str()) {
                    one(Effect::OpenLink(url))
                } else {
                    Vec::new()
                };
                (self, fx)
            },
            Message::DismissError => (State { error: None, ..self }, Vec::new()),
            Message::ToggleBrowser => self.on_toggle_browser(),
            Message::BrowserUrlChanged(v) => (State { browser_draft: v, ..self }, Vec::new()),
            Message::BrowserGo => self.on_browser_go(),
            Message::BrowserBack => (self, one(Effect::Browser(Cmd::Back))),
            Message::BrowserForward => (self, one(Effect::Browser(Cmd::Forward))),
            Message::BrowserReload => (self, one(Effect::Browser(Cmd::Reload))),
            Message::BrowserSync => {
                let fx = if !self.browser_open || chars_of(self.browser_url.as_str()).len() == 0 {
                    Vec::new()
                } else {
                    one(Effect::Browser(Cmd::Show))
                };
                (self, fx)
            },
            Message::BrowserOpenDefault => (
                State { browser_draft: DEFAULT_URL.to_owned(), ..self },
                one(Effect::BrowserGo),
            ),
            Message::BrowserHide => (self, one(Effect::Browser(Cmd::Hide))),
            Message::BrowserDone(Ok(())) => (State { error: None, ..self }, Vec::new()),
            Message::BrowserDone(Err(e)) => (State { browser_open: false, error: Some(e), ..self }, Vec::new()),

            _ => (self, Vec::new()),
        }
    }

}


impl State {
    fn on_model_msg(self, busy: &Vec<String>, msg: Message) -> (r: (State, Vec<Effect>)) requires msg is ModelChanged, ensures handled(self, crate::text::texts(busy@), msg, r.0, r.1@), {
        match msg { Message::ModelChanged(v) => (State { model: v, ..self }, Vec::new()), _ => (self, Vec::new()) }
    }
    fn on_catalog_msg(self, busy: &Vec<String>, msg: Message) -> (r: (State, Vec<Effect>)) requires msg is CatalogLoaded, ensures handled(self, crate::text::texts(busy@), msg, r.0, r.1@), {
        match msg { Message::CatalogLoaded(Ok(ps)) => (self.on_catalog(ps), Vec::new()), Message::CatalogLoaded(Err(_)) => (self, Vec::new()), _ => (self, Vec::new()) }
    }
    fn on_threads_msg(self, busy: &Vec<String>, msg: Message) -> (r: (State, Vec<Effect>)) requires msg is ThreadsLoaded, ensures handled(self, crate::text::texts(busy@), msg, r.0, r.1@), {
        match msg { Message::ThreadsLoaded(Ok(t)) => (State { threads: t, threads_loading: false, ..self }, Vec::new()), Message::ThreadsLoaded(Err(_)) => (State { threads_loading: false, ..self }, Vec::new()), _ => (self, Vec::new()) }
    }
    fn on_thread_msg(self, busy: &Vec<String>, msg: Message) -> (r: (State, Vec<Effect>)) requires msg is ThreadLoaded, ensures handled(self, crate::text::texts(busy@), msg, r.0, r.1@), {
        match msg { Message::ThreadLoaded(Ok(t)) => self.on_thread_loaded(t), Message::ThreadLoaded(Err(e)) => (self.on_thread_failed(e), Vec::new()), _ => (self, Vec::new()) }
    }
    fn on_provider_msg(self, busy: &Vec<String>, msg: Message) -> (r: (State, Vec<Effect>)) requires msg is ProviderChanged, ensures handled(self, crate::text::texts(busy@), msg, r.0, r.1@), {
        match msg { Message::ProviderChanged(v) => (self.on_provider_changed(v), Vec::new()), _ => (self, Vec::new()) }
    }
}

// ---------------------------------------------------------------------------
// Laws
// ---------------------------------------------------------------------------

/// A stop ends the turn in flight, and nothing still on its way from that
/// turn (a frame of its stream, a tool's outcome, the post of one) changes
/// the session afterwards.
pub proof fn stop_then_late_frames_change_nothing(
    s0: State,
    busy: Seq<Seq<char>>,
    s1: State,
    fx1: Seq<Effect>,
    msg: Message,
    s2: State,
    fx2: Seq<Effect>,
)
    requires
        s0.sending,
        updated(s0, busy, Message::Stop, s1, fx1),
        msg is Event || msg is ToolRan || msg is ToolPosted,
        updated(s1, busy, msg, s2, fx2),
    ensures
        !s1.sending,
        s1.stopped,
        fx1 == stop_effects(s0),
        s2 == s1,
        fx2.len() == 0,
{
    reveal(updated);
}

/// Restoring a checkpoint takes two presses on the same checkpoint: the first
/// only arms it, the second restores and disarms.
pub proof fn restore_takes_two_presses(
    s0: State,
    busy: Seq<Seq<char>>,
    sha: String,
    s1: State,
    fx1: Seq<Effect>,
    s2: State,
    fx2: Seq<Effect>,
)
    requires
        !holds(s0.restore_armed, sha@),
        updated(s0, busy, Message::RestoreCheckpoint(sha), s1, fx1),
        updated(s1, busy, Message::RestoreCheckpoint(sha), s2, fx2),
    ensures
        fx1.len() == 0,
        s1.restore_armed == Some(sha),
        s2.restore_armed is None,
        fx2 == restore_effects(s0.root, sha),
{
    lemma_restore_step(s0, busy, sha, s1, fx1);
    lemma_restore_step(s1, busy, sha, s2, fx2);
}

proof fn lemma_restore_step(s: State, busy: Seq<Seq<char>>, sha: String, a: State, f: Seq<Effect>)
    requires
        updated(s, busy, Message::RestoreCheckpoint(sha), a, f),
    ensures
        restore_pressed(s, sha, a, f),
{
    reveal(updated);
}

proof fn lemma_delete_step(s: State, busy: Seq<Seq<char>>, id: i64, a: State, f: Seq<Effect>)
    requires
        updated(s, busy, Message::DeleteThread(id), a, f),
    ensures
        delete_pressed(s, id, a, f),
{
    reveal(updated);
}

proof fn lemma_draft_step(s: State, busy: Seq<Seq<char>>, v: String, a: State, f: Seq<Effect>)
    requires
        updated(s, busy, Message::DraftChanged(v), a, f),
    ensures
        a == (State { draft: v, ..s }),
        f.len() == 0,
{
    reveal(updated);
}

proof fn lemma_send_step(s: State, busy: Seq<Seq<char>>, p: String, a: State, f: Seq<Effect>)
    requires
        updated(s, busy, Message::Send(p), a, f),
    ensures
        sent(s, busy, p@, a, f),
{
    reveal(updated);
}

/// Deleting a session takes two presses on the same session; the second
/// detaches it when it is the one open.
pub proof fn delete_takes_two_presses(
    s0: State,
    busy: Seq<Seq<char>>,
    id: i64,
    s1: State,
    fx1: Seq<Effect>,
    s2: State,
    fx2: Seq<Effect>,
)
    requires
        s0.delete_armed != Some(id),
        updated(s0, busy, Message::DeleteThread(id), s1, fx1),
        updated(s1, busy, Message::DeleteThread(id), s2, fx2),
    ensures
        fx1.len() == 0,
        s1.thread_id == s0.thread_id,
        fx2 == seq![Effect::DeleteThread(id)],
        s2.delete_armed is None,
        s0.thread_id == Some(id) ==> s2.thread_id is None,
{
    lemma_delete_step(s0, busy, id, s1, fx1);
    lemma_delete_step(s1, busy, id, s2, fx2);
}

/// Follow-ups typed while a turn is in flight wait behind it, in the order
/// they were typed, and start nothing yet.
pub proof fn follow_ups_wait_in_the_order_typed(
    s0: State,
    busy: Seq<Seq<char>>,
    x: String,
    px: String,
    y: String,
    py: String,
    a: State,
    fa: Seq<Effect>,
    s1: State,
    f1: Seq<Effect>,
    b: State,
    fb: Seq<Effect>,
    s2: State,
    f2: Seq<Effect>,
)
    requires
        s0.sending,
        s0.root is Some,
        trim(x@).len() > 0,
        trim(y@).len() > 0,
        updated(s0, busy, Message::DraftChanged(x), a, fa),
        updated(a, busy, Message::Send(px), s1, f1),
        updated(s1, busy, Message::DraftChanged(y), b, fb),
        updated(b, busy, Message::Send(py), s2, f2),
    ensures
        crate::text::texts(s2.queue@) == crate::text::texts(s0.queue@).push(trim(x@)).push(trim(y@)),
        s2.sending,
        s2.turns == s0.turns,
        s2.draft@.len() == 0,
        f1.len() == 0 && f2.len() == 0,
{
    lemma_draft_step(s0, busy, x, a, fa);
    lemma_send_step(a, busy, px, s1, f1);
    lemma_draft_step(s1, busy, y, b, fb);
    lemma_send_step(b, busy, py, s2, f2);
}

/// A checkpoint that could not be taken is reported beside the turn, never
/// as the turn's own failure: the banner, the transcript and the turn's
/// state stay as they were.
pub proof fn a_checkpoint_failure_is_not_a_turn_failure(
    s0: State,
    busy: Seq<Seq<char>>,
    e: String,
    s1: State,
    fx: Seq<Effect>,
)
    requires
        updated(s0, busy, Message::Committed(Err(e)), s1, fx),
    ensures
        s1.checkpoint_error == Some(e),
        s1.error == s0.error,
        s1.turns == s0.turns,
        s1.sending == s0.sending,
{
    reveal(updated);
}

/// A send needs a folder and a prompt: with either missing it changes
/// nothing and sends nothing.
pub proof fn a_send_needs_a_folder_and_a_prompt(
    s0: State,
    busy: Seq<Seq<char>>,
    p: String,
    s1: State,
    fx: Seq<Effect>,
)
    requires
        trim(s0.draft@).len() == 0 || s0.root is None,
        updated(s0, busy, Message::Send(p), s1, fx),
    ensures
        s1 == s0,
        fx.len() == 0,
{
    lemma_send_step(s0, busy, p, s1, fx);
}

/// A stop with no turn in flight is nothing: a second press, or one while a
/// decision waits on the user, changes nothing and asks for nothing.
pub proof fn a_stop_with_nothing_in_flight_is_nothing(
    s0: State,
    busy: Seq<Seq<char>>,
    s1: State,
    fx: Seq<Effect>,
)
    requires
        !s0.sending,
        updated(s0, busy, Message::Stop, s1, fx),
    ensures
        s1 == s0,
        fx.len() == 0,
{
    reveal(updated);
}

/// Taking a follow-up back out of the queue never loses what was typed: the
/// chip goes to the composer, after what is already there, and an index past
/// the queue changes nothing.
pub proof fn unqueueing_keeps_what_was_typed(
    s0: State,
    busy: Seq<Seq<char>>,
    i: usize,
    s1: State,
    fx: Seq<Effect>,
)
    requires
        updated(s0, busy, Message::Unqueue(i), s1, fx),
    ensures
        fx.len() == 0,
        i >= s0.queue@.len() ==> s1 == s0,
        i < s0.queue@.len() ==> {
            &&& s1.queue@ == s0.queue@.remove(i as int)
            &&& s1.draft@ == unqueued_draft(s0.draft@, s0.queue@[i as int]@)
            &&& s1.turns == s0.turns && s1.sending == s0.sending
        },
{
    reveal(updated);
}

/// A command run in the user's terminal is answered with what it printed
/// (or `(no output)` when that is blank), kept as it was; a command that
/// failed adds one last line naming its exit code in decimal, and one that
/// succeeded adds nothing.
pub proof fn a_failed_command_reports_its_exit_code(text: Seq<char>, code: i32)
    ensures
        ({
            let r = terminal_result_spec(text, code);
            let shown = if crate::text::blank(text) { "(no output)"@ } else { text };
            &&& shown.is_prefix_of(r)
            &&& code != 0 ==> r == shown + "\n(exit code "@ + crate::text::int_text(code as int) + ")"@
            &&& code != 0 ==> ("\n(exit code "@ + crate::text::int_text(code as int) + ")"@).is_suffix_of(r)
            &&& code == 0 ==> r == shown
        }),
{
    let r = terminal_result_spec(text, code);
    crate::text::lemma_trim_empty_iff_blank(text);
    let shown = if crate::text::blank(text) { "(no output)"@ } else { text };
    if code != 0 {
        let tail = "\n(exit code "@ + crate::text::int_text(code as int) + ")"@;
        assert(r =~= shown + tail);
        assert(r.take(shown.len() as int) =~= shown);
        assert(r.skip(r.len() - tail.len()) =~= tail);
    } else {
        assert(r.take(shown.len() as int) =~= shown);
    }
}

} // verus!
