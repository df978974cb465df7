//! The assistant, E.V.: what the orb says it is doing, how fast the voice
//! reads, which tool calls a reply holds, and what a shell command's result
//! reads like by the time the model sees it.
use vstd::prelude::*;
use crate::json::{compact, get_spec, parse_json, parsed_json, str_spec, to_compact, Json, JsonV};
use crate::text::{
    lossy, utf8_lossy, bytes_len, chars_of, chars_within, int_text, is_blank, push_all, push_i64, push_str,
    slice_chars, str_eq, string_of, texts, trim, trim_chars, trim_str,
};

verus! {

/// The assistant's name.
pub const NAME: &'static str = "E.V.";

/// Output kept per command, in bytes.
pub const MAX_TOOL_OUTPUT: usize = 8000;

/// Rounds of tool calls allowed per user turn.
pub const MAX_TOOL_ROUNDS: u8 = 5;

/// The default reading rate, as Edge's percent-of-normal.
pub const DEFAULT_VOICE_RATE: i32 = 15;

/// How far the adaptive nudge may push the rate either side of the setting.
pub const RATE_SPAN: i32 = 20;

/// What the orb shows.
#[derive(Debug, Clone, Copy, PartialEq, Eq, Structural)]
pub enum Mode {
    Idle,
    /// Hands-free and the mic is live, but nobody is talking to E.V. yet.
    Armed,
    /// An utterance is being captured.
    Listening,
    Thinking,
    Speaking,
}

/// What the assistant is doing, most immediate first: capturing, then any
/// work in flight (a turn, a clip being made, a transcription), then the
/// voice, then a live mic.
pub open spec fn mode_spec(
    capturing: bool,
    sending: bool,
    synthesizing: bool,
    transcribing: bool,
    speaking: bool,
    armed: bool,
) -> Mode {
    if capturing {
        Mode::Listening
    } else if sending || synthesizing || transcribing {
        Mode::Thinking
    } else if speaking {
        Mode::Speaking
    } else if armed {
        Mode::Armed
    } else {
        Mode::Idle
    }
}

pub fn mode_of(
    capturing: bool,
    sending: bool,
    synthesizing: bool,
    transcribing: bool,
    speaking: bool,
    armed: bool,
) -> (r: Mode)
    ensures
        r == mode_spec(capturing, sending, synthesizing, transcribing, speaking, armed),
{
    if capturing {
        Mode::Listening
    } else if sending || synthesizing || transcribing {
        Mode::Thinking
    } else if speaking {
        Mode::Speaking
    } else if armed {
        Mode::Armed
    } else {
        Mode::Idle
    }
}

pub open spec fn mode_label_spec(mode: Mode) -> Seq<char> {
    match mode {
        Mode::Idle => "Standing by"@,
        Mode::Armed => "Mic live"@,
        Mode::Listening => "Listening"@,
        Mode::Thinking => "Thinking"@,
        Mode::Speaking => "Speaking"@,
    }
}

/// What the orb says it is doing.
pub fn mode_label(mode: Mode) -> (r: &'static str)
    ensures
        r@ == mode_label_spec(mode),
{
    match mode {
        Mode::Idle => "Standing by",
        Mode::Armed => "Mic live",
        Mode::Listening => "Listening",
        Mode::Thinking => "Thinking",
        Mode::Speaking => "Speaking",
    }
}

/// Whether there is a turn in flight, a clip being made, or speech still to
/// come out.
pub fn busy_of(sending: bool, synthesizing: bool, speaking: bool, backlog: usize) -> (r: bool)
    ensures
        r == (sending || synthesizing || speaking || backlog > 0),
{
    sending || synthesizing || speaking || backlog > 0
}

/// How the rate is nudged by the speech waiting behind this sentence: slower
/// when nothing is queued while the model is still writing, faster as a
/// backlog builds.
pub open spec fn nudge(backlog: nat, streaming: bool) -> int {
    if backlog == 0 && streaming {
        -(RATE_SPAN / 2)
    } else if backlog <= 1 {
        0
    } else if backlog == 2 {
        RATE_SPAN / 2
    } else {
        RATE_SPAN as int
    }
}

pub open spec fn speech_rate_spec(voice_rate: int, backlog: nat, streaming: bool) -> int {
    let r = voice_rate + nudge(backlog, streaming);
    if r < -50 {
        -50
    } else if r > 90 {
        90
    } else {
        r
    }
}

/// The rate this sentence gets: the setting, nudged by how much speech is
/// already waiting (`backlog` sentences and clips), kept within -50..=90.
pub fn speech_rate(voice_rate: i32, backlog: usize, streaming: bool) -> (r: i32)
    requires
        i32::MIN + RATE_SPAN <= voice_rate <= i32::MAX - RATE_SPAN,
    ensures
        r == speech_rate_spec(voice_rate as int, backlog as nat, streaming),
        -50 <= r <= 90,
{
    let n: i32 = if backlog == 0 && streaming {
        -(RATE_SPAN / 2)
    } else if backlog <= 1 {
        0
    } else if backlog == 2 {
        RATE_SPAN / 2
    } else {
        RATE_SPAN
    };
    let r = voice_rate + n;
    if r < -50 {
        -50
    } else if r > 90 {
        90
    } else {
        r
    }
}

/// The trimmed text, or nothing when it is blank.
pub open spec fn non_empty_spec(s: Seq<char>) -> Option<Seq<char>> {
    if trim(s).len() == 0 {
        None
    } else {
        Some(trim(s))
    }
}

pub fn non_empty(s: &str) -> (r: Option<String>)
    ensures
        match non_empty_spec(s@) {
            Some(t) => r is Some && r->0@ == t,
            None => r is None,
        },
{
    let t = trim_str(s);
    if chars_of(t.as_str()).len() == 0 {
        None
    } else {
        Some(t)
    }
}

// ---------------------------------------------------------------------------
// Tool calls
// ---------------------------------------------------------------------------

/// One function call in a reply.
#[derive(Debug, Clone)]
pub struct ToolCall {
    pub id: String,
    pub name: String,
    /// The arguments as the model wrote them: JSON text.
    pub arguments: String,
}

/// What one call answered.
#[derive(Debug, Clone)]
pub struct ToolOutcome {
    /// `tool_call_id` the result answers.
    pub id: String,
    pub output: String,
}

/// The command a `run_command` call asked to run, or its raw arguments while
/// they are not yet readable; any other call as `name(arguments)`.
pub open spec fn command_of_spec(name: Seq<char>, arguments: Seq<char>) -> Seq<char> {
    if name != "run_command"@ {
        name + "("@ + trim(arguments) + ")"@
    } else {
        match parsed_json(arguments) {
            Some(v) => match str_spec(get_spec(v, "command"@)) {
                Some(c) => c,
                None => arguments,
            },
            None => arguments,
        }
    }
}

pub fn command_of(call: &ToolCall) -> (r: String)
    ensures
        r@ == command_of_spec(call.name@, call.arguments@),
{
    if !str_eq(call.name.as_str(), "run_command") {
        let mut out: Vec<char> = Vec::new();
        push_str(&mut out, call.name.as_str());
        push_str(&mut out, "(");
        let a = chars_of(call.arguments.as_str());
        push_all(&mut out, &trim_chars(&a));
        push_str(&mut out, ")");
        return string_of(&out);
    }
    match parse_json(call.arguments.as_str()) {
        Some(v) => match crate::json::get_str(&v, "command") {
            Some(c) => c.to_owned(),
            None => call.arguments.clone(),
        },
        None => call.arguments.clone(),
    }
}

/// What a command's run is to the model: a plan to run it, or the error the
/// call is answered with when no command can be read out of it.
pub open spec fn tool_plan_spec(name: Seq<char>, arguments: Seq<char>) -> Result<
    Seq<char>,
    Seq<char>,
> {
    if name == "run_command"@ {
        match parsed_json(arguments) {
            Some(v) => match str_spec(get_spec(v, "command"@)) {
                Some(c) => Ok(c),
                None => Err(
                    "error: run_command needs {\"command\": \"\u{2026}\"}, got: "@ + arguments,
                ),
            },
            None => Err("error: run_command needs {\"command\": \"\u{2026}\"}, got: "@ + arguments),
        }
    } else {
        Err("error: unknown tool "@ + crate::text::debug_text(name))
    }
}

/// The command a terminal call runs, or the text it is answered with instead.
pub fn tool_plan(call: &ToolCall) -> (r: Result<String, String>)
    ensures
        match tool_plan_spec(call.name@, call.arguments@) {
            Ok(c) => r is Ok && r->Ok_0@ == c,
            Err(e) => r is Err && r->Err_0@ == e,
        },
{
    if str_eq(call.name.as_str(), "run_command") {
        let command = match parse_json(call.arguments.as_str()) {
            Some(v) => match crate::json::get_str(&v, "command") {
                Some(c) => Some(c.to_owned()),
                None => None,
            },
            None => None,
        };
        match command {
            Some(c) => Ok(c),
            None => {
                let mut out: Vec<char> = Vec::new();
                push_str(&mut out, "error: run_command needs {\"command\": \"\u{2026}\"}, got: ");
                push_str(&mut out, call.arguments.as_str());
                Err(string_of(&out))
            },
        }
    } else {
        let mut out: Vec<char> = Vec::new();
        push_str(&mut out, "error: unknown tool ");
        let d = crate::text::debug_str(call.name.as_str());
        push_str(&mut out, d.as_str());
        Err(string_of(&out))
    }
}

// ---------------------------------------------------------------------------
// Command output
// ---------------------------------------------------------------------------

/// The marker put after output cut at [`MAX_TOOL_OUTPUT`] bytes.
pub open spec fn truncated_mark() -> Seq<char> {
    "\n\u{2026} (truncated)"@
}

/// What a finished command reads like to the model: stdout, then stderr on
/// a line of its own when it says anything, then the exit code when the
/// command failed (`-1` when it has none); `(no output)` when all of that is
/// blank; and everything past [`MAX_TOOL_OUTPUT`] bytes cut at the last
/// character that fits, with a marker.
pub open spec fn command_output_spec(
    stdout: Seq<u8>,
    stderr: Seq<u8>,
    success: bool,
    code: Option<i32>,
) -> Seq<char> {
    let out = lossy(stdout);
    let err = lossy(stderr);
    let t1 = if trim(err).len() > 0 {
        (if out.len() > 0 {
            out + "\n"@
        } else {
            out
        }) + err
    } else {
        out
    };
    let t2 = if success {
        t1
    } else {
        t1 + "\n(exit code "@ + int_text(
            match code {
                Some(c) => c as int,
                None => -1,
            },
        ) + ")"@
    };
    let t3 = if trim(t2).len() == 0 {
        "(no output)"@
    } else {
        t2
    };
    if bytes_len(t3) > MAX_TOOL_OUTPUT {
        t3.take(chars_within(t3, MAX_TOOL_OUTPUT as nat) as int) + truncated_mark()
    } else {
        t3
    }
}

/// The first characters of `v` that fit in `budget` bytes, and whether all
/// of `v` did.
fn fit_bytes(v: &Vec<char>, budget: usize) -> (r: (usize, bool))
    ensures
        r.0 == chars_within(v@, budget as nat),
        r.0 <= v@.len(),
        r.1 == (bytes_len(v@) <= budget),
{
    let mut used: usize = 0;
    let mut i: usize = 0;
    assert(v@.skip(0) =~= v@);
    assert(v@.take(0) =~= Seq::<char>::empty());
    while i < v.len()
        invariant
            i <= v@.len(),
            used <= budget,
            used == bytes_len(v@.take(i as int)),
            chars_within(v@, budget as nat) == i + chars_within(
                v@.skip(i as int),
                (budget - used) as nat,
            ),
        decreases v@.len() - i,
    {
        let u: u32 = v[i] as u32;
        let w: usize = if u < 0x80 {
            1
        } else if u < 0x800 {
            2
        } else if u < 0x10000 {
            3
        } else {
            4
        };
        assert(v@.skip(i as int)[0] == v@[i as int]);
        if w > budget - used {
            proof {
                assert(chars_within(v@.skip(i as int), (budget - used) as nat) == 0);
                lemma_bytes_len_grows(v@, i as int);
            }
            return (i, false);
        }
        assert(v@.skip(i as int).drop_first() =~= v@.skip(i + 1));
        assert(v@.take(i + 1).drop_last() =~= v@.take(i as int));
        used = used + w;
        i = i + 1;
    }
    assert(v@.skip(i as int) =~= Seq::<char>::empty());
    assert(v@.take(i as int) =~= v@);
    (i, true)
}

/// The bytes of a text are at least those of any head of it plus the next
/// character.
pub proof fn lemma_bytes_len_grows(s: Seq<char>, i: int)
    requires
        0 <= i < s.len(),
    ensures
        bytes_len(s) >= bytes_len(s.take(i)) + crate::text::utf8_len(s[i]),
    decreases s.len(),
{
    if i < s.len() - 1 {
        lemma_bytes_len_grows(s.drop_last(), i);
        assert(s.drop_last().take(i) =~= s.take(i));
        assert(s.drop_last()[i] == s[i]);
    } else {
        assert(s.drop_last() =~= s.take(i));
    }
}

/// The result of one command, as the model reads it.
pub fn command_output(stdout: &[u8], stderr: &[u8], success: bool, code: Option<i32>) -> (r:
    String)
    ensures
        r@ == command_output_spec(stdout@, stderr@, success, code),
{
    let out = utf8_lossy(stdout);
    let err = utf8_lossy(stderr);
    let mut text = chars_of(out.as_str());
    if !is_blank(err.as_str()) {
        if text.len() > 0 {
            text.push('\n');
            assert(text@ == out@ + "\n"@) by {
                reveal_strlit("\n");
                assert(text@ =~= out@ + "\n"@);
            }
        }
        push_str(&mut text, err.as_str());
    }
    let ghost t1 = text@;
    if !success {
        push_str(&mut text, "\n(exit code ");
        let c: i64 = match code {
            Some(c) => c as i64,
            None => -1,
        };
        push_i64(&mut text, c);
        push_str(&mut text, ")");
    }
    let ghost t2 = text@;
    if is_blank(string_of(&text).as_str()) {
        text = chars_of("(no output)");
    }
    let ghost t3 = text@;
    assert(t3 == {
        let out = lossy(stdout@);
        let err = lossy(stderr@);
        let t1 = if trim(err).len() > 0 {
            (if out.len() > 0 {
                out + "\n"@
            } else {
                out
            }) + err
        } else {
            out
        };
        let t2 = if success {
            t1
        } else {
            t1 + "\n(exit code "@ + int_text(
                match code {
                    Some(c) => c as int,
                    None => -1,
                },
            ) + ")"@
        };
        if trim(t2).len() == 0 {
            "(no output)"@
        } else {
            t2
        }
    });
    let (cut, fits) = fit_bytes(&text, MAX_TOOL_OUTPUT);
    if fits {
        return string_of(&text);
    }
    let mut kept = slice_chars(&text, 0, cut);
    assert(kept@ =~= text@.take(cut as int));
    push_str(&mut kept, "\n\u{2026} (truncated)");
    string_of(&kept)
}

/// What a command that ran past its deadline answers.
pub fn timed_out(secs: u64) -> (r: String)
    ensures
        r@ == "(timed out after "@ + crate::text::nat_text(secs as nat) + "s)"@,
{
    let mut out: Vec<char> = Vec::new();
    push_str(&mut out, "(timed out after ");
    crate::text::push_u64(&mut out, secs);
    push_str(&mut out, "s)");
    string_of(&out)
}

/// What a command that could not be started answers.
pub fn failed_to_start(error: &str) -> (r: String)
    ensures
        r@ == "(failed to start: "@ + error@ + ")"@,
{
    let mut out: Vec<char> = Vec::new();
    push_str(&mut out, "(failed to start: ");
    push_str(&mut out, error);
    push_str(&mut out, ")");
    string_of(&out)
}

// ---------------------------------------------------------------------------
// Calls written out as text
// ---------------------------------------------------------------------------

/// `s` with every leading copy of `p` removed (`trim_start_matches(p)`).
pub open spec fn strip_prefix_all(s: Seq<char>, p: Seq<char>) -> Seq<char>
    decreases s.len(),
{
    if p.len() > 0 && p.is_prefix_of(s) {
        strip_prefix_all(s.skip(p.len() as int), p)
    } else {
        s
    }
}

/// `s` without the runs of `c` at either end (`trim_matches(c)`).
pub open spec fn strip_both(s: Seq<char>, c: char) -> Seq<char> {
    crate::text::strip_end(strip_start(s, c), c)
}

pub open spec fn strip_start(s: Seq<char>, c: char) -> Seq<char>
    decreases s.len(),
{
    if s.len() > 0 && s[0] == c {
        strip_start(s.drop_first(), c)
    } else {
        s
    }
}

/// The text of a reply with its code fence taken off.
pub open spec fn unfenced(content: Seq<char>) -> Seq<char> {
    trim(strip_both(strip_prefix_all(trim(content), "```json"@), '`'))
}

/// The call one item of a salvaged reply names: its name, and its arguments
/// as text (a string as it is, anything else in compact JSON, `{}` when
/// missing). Nothing when it has no string name or names a tool that does not
/// exist.
pub open spec fn salvaged_call(item: JsonV, tools: Seq<Seq<char>>) -> Option<(Seq<char>, Seq<char>)> {
    match str_spec(get_spec(item, "name"@)) {
        None => None,
        Some(name) => if name != "run_command"@ && !tools.contains(name) {
            None
        } else {
            Some(
                (
                    name,
                    match get_spec(item, "arguments"@) {
                        Some(JsonV::Str(a)) => a,
                        Some(v) => compact(v),
                        None => "{}"@,
                    },
                ),
            )
        },
    }
}

/// Every item's call, or nothing when any item is not a call.
pub open spec fn salvaged_calls(items: Seq<JsonV>, tools: Seq<Seq<char>>) -> Option<
    Seq<(Seq<char>, Seq<char>)>,
>
    decreases items.len(),
{
    if items.len() == 0 {
        Some(Seq::empty())
    } else {
        match salvaged_calls(items.drop_last(), tools) {
            None => None,
            Some(rest) => match salvaged_call(items.last(), tools) {
                None => None,
                Some(c) => Some(rest.push(c)),
            },
        }
    }
}

/// A reply that is a tool call written out as text: the whole message (code
/// fence aside) is one call object or a list of them, each naming a tool that
/// exists (`run_command` or one of `tools`). The calls, by name and arguments,
/// or nothing.
pub open spec fn salvage_spec(content: Seq<char>, tools: Seq<Seq<char>>) -> Option<
    Seq<(Seq<char>, Seq<char>)>,
> {
    match parsed_json(unfenced(content)) {
        Some(JsonV::Array(items)) => match salvaged_calls(items, tools) {
            Some(calls) => if calls.len() > 0 {
                Some(calls)
            } else {
                None
            },
            None => None,
        },
        Some(JsonV::Object(m)) => match salvaged_call(JsonV::Object(m), tools) {
            Some(c) => Some(seq![c]),
            None => None,
        },
        _ => None,
    }
}

pub open spec fn call_views(s: Seq<ToolCall>) -> Seq<(Seq<char>, Seq<char>, Seq<char>)> {
    s.map_values(|c: ToolCall| (c.id@, c.name@, c.arguments@))
}

fn unfence(content: &str) -> (r: String)
    ensures
        r@ == unfenced(content@),
{
    let v = chars_of(content);
    let t = trim_chars(&v);
    let fence = chars_of("```json");
    let mut pos: usize = 0;
    assert(t@.skip(0) =~= t@);
    while fence.len() > 0 && pos <= t.len() && crate::text::has_prefix(
        &slice_chars(&t, pos, t.len()),
        &fence,
    )
        invariant
            pos <= t@.len(),
            fence@ == "```json"@,
            strip_prefix_all(t@, fence@) == strip_prefix_all(t@.skip(pos as int), fence@),
        decreases t@.len() - pos,
    {
        assert(t@.subrange(pos as int, t@.len() as int) =~= t@.skip(pos as int));
        assert(t@.skip(pos as int).skip(fence@.len() as int) =~= t@.skip(pos + fence@.len()));
        pos = pos + fence.len();
    }
    proof {
        if pos <= t@.len() {
            assert(t@.subrange(pos as int, t@.len() as int) =~= t@.skip(pos as int));
        }
    }
    let rest = slice_chars(&t, pos, t.len());
    assert(rest@ =~= t@.skip(pos as int));
    let mut i: usize = 0;
    assert(rest@.skip(0) =~= rest@);
    while i < rest.len() && rest[i] == '`'
        invariant
            i <= rest@.len(),
            strip_start(rest@, '`') == strip_start(rest@.skip(i as int), '`'),
        decreases rest@.len() - i,
    {
        assert(rest@.skip(i as int)[0] == rest@[i as int]);
        assert(rest@.skip(i as int).drop_first() =~= rest@.skip(i + 1));
        i = i + 1;
    }
    proof {
        if i < rest@.len() {
            assert(rest@.skip(i as int)[0] == rest@[i as int]);
        } else {
            assert(rest@.skip(i as int) =~= Seq::<char>::empty());
        }
    }
    let body = slice_chars(&rest, i, rest.len());
    assert(body@ =~= rest@.skip(i as int));
    let stripped = crate::text::strip_end_chars(&body, '`');
    string_of(&trim_chars(&stripped))
}

fn salvage_one(item: &Json, tools: &[String]) -> (r: Option<(String, String)>)
    ensures
        match salvaged_call(item@, texts(tools@)) {
            Some(c) => match r {
                Some((n, a)) => (n@, a@) == c,
                None => false,
            },
            None => r is None,
        },
{
    let name = match crate::json::get_str(item, "name") {
        Some(n) => n,
        None => {
            return None;
        },
    };
    if !str_eq(name, "run_command") {
        let mut known = false;
        let mut j: usize = 0;
        while j < tools.len()
            invariant
                j <= tools@.len(),
                known == (exists|k: int| 0 <= k < j && #[trigger] tools@[k]@ == name@),
            decreases tools@.len() - j,
        {
            if str_eq(tools[j].as_str(), name) {
                known = true;
            }
            j = j + 1;
        }
        proof {
            if known {
                let k = choose|k: int| 0 <= k < j && #[trigger] tools@[k]@ == name@;
                assert(texts(tools@)[k] == tools@[k]@);
            } else {
                assert forall|k: int| 0 <= k < texts(tools@).len() implies #[trigger] texts(
                    tools@,
                )[k] != name@ by {
                    assert(texts(tools@)[k] == tools@[k]@);
                }
            }
        }
        if !known {
            return None;
        }
    }
    let arguments = match item.get("arguments") {
        Some(a) => match a.as_str() {
            Some(t) => t.to_owned(),
            None => string_of(&to_compact(a)),
        },
        None => "{}".to_owned(),
    };
    Some((name.to_owned(), arguments))
}

/// The calls in a reply that is a tool call written out as text, rather than
/// a reply that happens to mention one; `tools` are the tool names besides
/// `run_command` that exist. The calls get ids `salvaged_0`, `salvaged_1`, …
pub fn salvage_calls(content: &str, tools: &[String]) -> (r: Option<Vec<ToolCall>>)
    ensures
        match salvage_spec(content@, texts(tools@)) {
            Some(calls) => r is Some && call_views(r->0@).len() == calls.len() && forall|i: int|
                0 <= i < calls.len() ==> #[trigger] call_views(r->0@)[i] == (
                    "salvaged_"@ + crate::text::nat_text(i as nat),
                    calls[i].0,
                    calls[i].1,
                ),
            None => r is None,
        },
{
    let text = unfence(content);
    let parsed = match parse_json(text.as_str()) {
        Some(v) => v,
        None => {
            return None;
        },
    };
    let mut calls: Vec<ToolCall> = Vec::new();
    match &parsed {
        Json::Array(items) => {
            proof {
                crate::json::lemma_view_array(*items);
                assert(parsed@ == JsonV::Array(crate::json::views(items@)));
            }
            let ghost iv = crate::json::views(items@);
            let mut i: usize = 0;
            while i < items.len()
                invariant
                    iv == crate::json::views(items@),
                    parsed_json(unfenced(content@)) == Some(JsonV::Array(iv)),
                    iv.len() == items@.len(),
                    forall|k: int| 0 <= k < items@.len() ==> #[trigger] iv[k] == items@[k]@,
                    i <= items@.len(),
                    salvaged_calls(iv.take(i as int), texts(tools@)) is Some,
                    salvaged_calls(iv.take(i as int), texts(tools@))->0.len() == i,
                    call_views(calls@).len() == i,
                    forall|k: int|
                        0 <= k < i ==> #[trigger] call_views(calls@)[k] == (
                            "salvaged_"@ + crate::text::nat_text(k as nat),
                            salvaged_calls(iv.take(i as int), texts(tools@))->0[k].0,
                            salvaged_calls(iv.take(i as int), texts(tools@))->0[k].1,
                        ),
                decreases items@.len() - i,
            {
                proof {
                    assert(iv.take(i + 1).drop_last() =~= iv.take(i as int));
                    assert(iv.take(i + 1).last() == items@[i as int]@);
                }
                let (name, arguments) = match salvage_one(&items[i], tools) {
                    Some(c) => c,
                    None => {
                        proof {
                            lemma_salvaged_calls_stay_none(iv, texts(tools@), i + 1);
                        }
                        return None;
                    },
                };
                let mut id: Vec<char> = Vec::new();
                push_str(&mut id, "salvaged_");
                crate::text::push_u64(&mut id, i as u64);
                assert(id@ =~= "salvaged_"@ + crate::text::nat_text(i as nat));
                let ghost prev = calls@;
                let ghost rest = salvaged_calls(iv.take(i as int), texts(tools@))->0;
                let ghost c = (name@, arguments@);
                let call = ToolCall { id: string_of(&id), name, arguments };
                calls.push(call);
                proof {
                    lemma_call_views_push(prev, call);
                    assert(salvaged_calls(iv.take(i + 1), texts(tools@)) == Some(rest.push(c)));
                    assert(call_views(calls@).len() == i + 1);
                    assert forall|k: int| 0 <= k < i + 1 implies #[trigger] call_views(calls@)[k]
                        == (
                        "salvaged_"@ + crate::text::nat_text(k as nat),
                        rest.push(c)[k].0,
                        rest.push(c)[k].1,
                    ) by {
                        assert(calls@[k] == if k < i {
                            prev[k]
                        } else {
                            call
                        });
                        if k < i {
                            assert(call_views(prev)[k] == call_views(calls@)[k]);
                            assert(rest.push(c)[k] == rest[k]);
                        } else {
                            assert(call_views(calls@)[k] == (call.id@, call.name@, call.arguments@));
                            assert(rest.push(c)[k] == c);
                        }
                    }
                }
                i = i + 1;
            }
            assert(iv.take(i as int) =~= iv);
            if calls.len() == 0 {
                return None;
            }
            Some(calls)
        },
        Json::Object(m) => {
            match salvage_one(&parsed, tools) {
                Some((name, arguments)) => {
                    let mut id: Vec<char> = Vec::new();
                    push_str(&mut id, "salvaged_");
                    crate::text::push_u64(&mut id, 0);
                    calls.push(ToolCall { id: string_of(&id), name, arguments });
                    Some(calls)
                },
                None => None,
            }
        },
        _ => None,
    }
}

proof fn lemma_call_views_push(s: Seq<ToolCall>, c: ToolCall)
    ensures
        call_views(s.push(c)) == call_views(s).push((c.id@, c.name@, c.arguments@)),
{
    assert(call_views(s.push(c)) =~= call_views(s).push((c.id@, c.name@, c.arguments@)));
}

proof fn lemma_salvaged_calls_stay_none(items: Seq<JsonV>, tools: Seq<Seq<char>>, n: int)
    requires
        0 < n <= items.len(),
        salvaged_calls(items.take(n), tools) is None,
    ensures
        salvaged_calls(items, tools) is None,
    decreases items.len() - n,
{
    if n < items.len() {
        assert(items.take(n + 1).drop_last() =~= items.take(n));
        lemma_salvaged_calls_stay_none(items, tools, n + 1);
    } else {
        assert(items.take(n) =~= items);
    }
}

/// The voice assistant's turn after one message, in place, and what the
/// program around it is to do, in order; `memory_tools` names the tools the
/// memory store answers.
pub fn update(
    state: &mut crate::assistant_turn::State,
    memory_tools: &Vec<String>,
    message: crate::assistant_turn::Message,
) -> (fx: Vec<crate::assistant_turn::Effect>)
    requires
        old(state).wf(),
        message matches crate::assistant_turn::Message::ToolPiece(d) ==> d.index < usize::MAX,
    ensures
        final(state).wf(),
        crate::assistant_turn::updated(*old(state), texts(memory_tools@), message, *final(state), fx@),
{
    let mut now = crate::assistant_turn::State::new();
    std::mem::swap(&mut now, state);
    let (next, fx) = now.step(memory_tools, message);
    *state = next;
    fx
}

} // verus!
