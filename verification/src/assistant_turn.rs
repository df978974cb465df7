//! The voice assistant's turn: what the thread does with what is typed or
//! heard, with each piece of a streamed reply, with the tool calls a reply
//! makes and their results, and which closed sentences go to the voice. The
//! program around it streams, runs the tools, synthesizes and plays; it hands
//! back what happened as messages.
use vstd::prelude::*;
use crate::assistant::{call_views, salvage_calls, salvage_spec, ToolCall, ToolOutcome, MAX_TOOL_ROUNDS};
use crate::assistant_voice::{sentence_cut, speech_text, speech_text_spec, take_sentence};
use crate::assistant_gate::{addressed, addressed_spec, ghost_key, is_ghost, is_ghost_caption};
use crate::providers::{choose_provider, configured_only, configured_spec, keeps_model, ProviderEntry};
use crate::text::{blank, chars_of, is_blank, push_str, starts_with_str, string_of, texts, trim, trim_start, trim_str};

verus! {

/// What the model is told when a reply is empty.
pub const EMPTY_REPLY: &'static str = "The model returned an empty reply. Ask again.";

/// One message of the thread as it goes on the wire.
#[derive(Debug)]
pub struct WireMessage {
    pub role: String,
    pub content: String,
    /// The calls an assistant message made.
    pub tool_calls: Option<Vec<ToolCall>>,
    /// The call a tool message answers.
    pub tool_call_id: Option<String>,
}

/// A piece of a streamed tool call: the call at `index` gains an id or a
/// name when the piece carries one, and the text of its arguments grows.
#[derive(Debug)]
pub struct Fragment {
    pub index: usize,
    pub id: Option<String>,
    pub name: Option<String>,
    pub arguments: String,
}

/// The thread, the reply in flight, and the speech waiting for the voice.
#[derive(Debug)]
pub struct State {
    pub messages: Vec<WireMessage>,
    /// Each message's reasoning, same indices; shown, never spoken or sent.
    pub reasoning: Vec<String>,
    pub draft: String,
    pub sending: bool,
    /// An assistant message is open and collecting the reply.
    pub streaming: bool,
    pub error: Option<String>,
    /// Replies are spoken.
    pub voice: bool,
    /// The calls of the round in flight, assembled from their pieces.
    pub tool_buf: Vec<ToolCall>,
    /// Tool rounds since the user last spoke.
    pub tool_rounds: u8,
    /// Reply text past the last closed sentence.
    pub speech_buf: String,
    /// Closed sentences waiting for the voice, oldest first.
    pub speech_queue: Vec<String>,
    /// Nothing of this reply has gone to the voice yet.
    pub first_chunk: bool,
    /// The voice is making a sentence; the next waits for it.
    pub synthesizing: bool,
    /// The provider picked for the thread; empty for the proxy's default.
    pub provider: String,
    /// The model picked; empty for the provider's default.
    pub model: String,
    /// The providers that can answer.
    pub catalog: Vec<ProviderEntry>,
    /// The messages whose reasoning is shown opened.
    pub reasoning_open: Vec<usize>,
}

/// What the thread is told.
#[derive(Debug)]
pub enum Message {
    DraftChanged(String),
    Send,
    /// Stop the turn in flight; what already arrived stays.
    Abort,
    ToolPiece(Fragment),
    Delta(String),
    Reasoning(String),
    Done,
    Failed(String),
    /// The results of a round of calls.
    ToolResults(Vec<ToolOutcome>),
    /// The voice is done making the sentence it was given.
    VoiceReady,
    ToggleVoice,
    Clear,
    DismissError,
    ProviderChanged(String),
    ModelChanged(String),
    /// Back to the proxy's own provider and model.
    UseDefaults,
    /// The provider catalog the proxy answered with, or why it did not.
    CatalogLoaded(Result<Vec<ProviderEntry>, String>),
    /// Open or close the reasoning shown under a message.
    ToggleReasoning(usize),
    /// A link in a reply was clicked.
    LinkClicked(String),
    /// What the transcriber heard, or why it could not. `mine` says the voice
    /// is the user's (or no print is known yet); `follow_up` says it came
    /// while the follow-up window is open (the mic button is on, or a reply
    /// just ended).
    Heard { text: Result<String, String>, mine: bool, follow_up: bool },
}

/// What the program around the thread is to do, in order.
#[derive(Debug)]
pub enum Effect {
    /// Stop the voice and drop what it had queued.
    Hush,
    /// Drop the stream in flight.
    AbortStream,
    /// Stream a reply to the thread, offering the tools or not.
    Request { tools: bool },
    /// Run a round of calls: those named in the memory tools against the
    /// store, the rest in the terminal; answer with `ToolResults`.
    RunTools { memory: Vec<ToolCall>, shell: Vec<ToolCall> },
    /// The reply is over: the follow-up window opens.
    ReplyEnded,
    /// Open this web link in the browser.
    OpenLink(String),
    /// Make this sentence in the voice and play it; answer with
    /// `VoiceReady` once it is made.
    Speak(String),
    ScrollToEnd,
}

impl State {
    /// The thread's shape: one reasoning text per message, and an open reply
    /// has its message.
    pub open spec fn wf(&self) -> bool {
        &&& self.reasoning@.len() == self.messages@.len()
        &&& self.streaming ==> self.messages@.len() > 0
    }

    /// A new thread, speaking its replies.
    pub fn new() -> (r: State)
        ensures
            r.wf(),
            r.messages@.len() == 0 && r.draft@.len() == 0 && r.voice,
            !r.sending && !r.streaming && r.error is None,
            r.tool_buf@.len() == 0 && r.tool_rounds == 0,
            r.speech_buf@.len() == 0 && r.speech_queue@.len() == 0 && !r.synthesizing,
            r.provider@.len() == 0 && r.model@.len() == 0 && r.catalog@.len() == 0,
            r.reasoning_open@.len() == 0,
    {
        State {
            messages: Vec::new(),
            reasoning: Vec::new(),
            draft: String::new(),
            sending: false,
            streaming: false,
            error: None,
            voice: true,
            tool_buf: Vec::new(),
            tool_rounds: 0,
            speech_buf: String::new(),
            speech_queue: Vec::new(),
            first_chunk: false,
            synthesizing: false,
            provider: String::new(),
            model: String::new(),
            catalog: Vec::new(),
            reasoning_open: Vec::new(),
        }
    }
}

// ---------------------------------------------------------------------------
// Speech
// ---------------------------------------------------------------------------

/// One chunk of reply text queued for the voice, markup taken off; nothing
/// is queued when nothing sayable is left.
pub open spec fn enqueued(queue: Seq<Seq<char>>, first: bool, raw: Seq<char>) -> (Seq<Seq<char>>, bool) {
    let spoken = speech_text_spec(raw);
    if blank(spoken) {
        (queue, first)
    } else {
        (queue.push(spoken), false)
    }
}

pub proof fn lemma_trim_start_len(s: Seq<char>)
    ensures
        trim_start(s).len() <= s.len(),
    decreases s.len(),
{
    if s.len() > 0 && crate::text::is_ws(s[0]) {
        lemma_trim_start_len(s.drop_first());
    }
}

/// Every sentence the buffer closes, queued in order; what is left open stays.
pub open spec fn drained(buf: Seq<char>, first: bool, queue: Seq<Seq<char>>) -> (Seq<char>, bool, Seq<Seq<char>>)
    decreases buf.len(),
{
    match sentence_cut(buf, first) {
        None => (buf, first, queue),
        Some(k) => if 0 <= k < buf.len() {
            let (q2, f2) = enqueued(queue, first, buf.take(k + 1));
            proof {
                lemma_trim_start_len(buf.skip(k + 1));
            }
            drained(trim_start(buf.skip(k + 1)), f2, q2)
        } else {
            (buf, first, queue)
        },
    }
}

fn enqueue(queue: &mut Vec<String>, first: &mut bool, raw: &str)
    ensures
        (texts(final(queue)@), *final(first)) == enqueued(texts(old(queue)@), *old(first), raw@),
{
    let spoken = speech_text(raw);
    if !is_blank(spoken.as_str()) {
        let ghost q0 = queue@;
        queue.push(spoken);
        proof {
            crate::text::lemma_texts_push(q0, queue@.last());
        }
        *first = false;
    }
}

/// The closed sentences of the buffer queued for the voice.
fn drain(buf: &mut String, queue: &mut Vec<String>, first: &mut bool)
    ensures
        (final(buf)@, *final(first), texts(final(queue)@)) == drained(old(buf)@, *old(first), texts(old(queue)@)),
{
    loop
        invariant
            drained(buf@, *first, texts(queue@)) == drained(old(buf)@, *old(first), texts(old(queue)@)),
        decreases buf@.len(),
    {
        let ghost b0 = buf@;
        let ghost f0 = *first;
        match take_sentence(buf, *first) {
            Some(s) => {
                proof {
                    crate::assistant_voice::lemma_sentence_cut_range(b0, f0);
                    lemma_trim_start_len(b0.skip(sentence_cut(b0, f0)->0 + 1));
                }
                enqueue(queue, first, s.as_str());
            },
            None => {
                return;
            },
        }
    }
}

/// The voice, when free, given the oldest waiting sentence: `said` is what
/// is handed to it (nothing, or that one sentence).
pub open spec fn voice_next(
    synth: bool,
    queue: Seq<Seq<char>>,
    after_synth: bool,
    after_queue: Seq<Seq<char>>,
    said: Seq<Effect>,
) -> bool {
    if !synth && queue.len() > 0 {
        &&& after_synth
        &&& after_queue == queue.drop_first()
        &&& said.len() == 1
        &&& said[0] matches Effect::Speak(s) && s@ == queue[0]
    } else {
        after_synth == synth && after_queue == queue && said.len() == 0
    }
}

fn next_synthesis(synth: &mut bool, queue: &mut Vec<String>, fx: &mut Vec<Effect>)
    ensures
        final(fx)@.len() >= old(fx)@.len(),
        final(fx)@.take(old(fx)@.len() as int) == old(fx)@,
        voice_next(
            *old(synth),
            texts(old(queue)@),
            *final(synth),
            texts(final(queue)@),
            final(fx)@.skip(old(fx)@.len() as int),
        ),
{
    let ghost f0 = fx@;
    if !*synth && queue.len() > 0 {
        let ghost q0 = queue@;
        let s = queue.remove(0);
        *synth = true;
        fx.push(Effect::Speak(s));
        assert(texts(queue@) =~= texts(q0).drop_first());
        assert(fx@.skip(f0.len() as int) =~= seq![Effect::Speak(s)]);
    } else {
        assert(fx@.skip(f0.len() as int) =~= Seq::<Effect>::empty());
    }
    assert(fx@.take(f0.len() as int) =~= f0);
}

/// A copy of a list of calls.
fn copy_calls(v: &Vec<ToolCall>) -> (r: Vec<ToolCall>)
    ensures
        r@ == v@,
{
    let mut r: Vec<ToolCall> = Vec::new();
    let mut i: usize = 0;
    while i < v.len()
        invariant
            i <= v@.len(),
            r@ == v@.take(i as int),
        decreases v@.len() - i,
    {
        let c = &v[i];
        r.push(ToolCall { id: c.id.clone(), name: c.name.clone(), arguments: c.arguments.clone() });
        assert(v@.take(i + 1) =~= v@.take(i as int).push(v@[i as int]));
        i = i + 1;
    }
    assert(v@.take(i as int) =~= v@);
    r
}

// ---------------------------------------------------------------------------
// Pieces of the thread
// ---------------------------------------------------------------------------

/// `m` is `was` with `text` added to its content.
pub open spec fn grown(was: WireMessage, m: WireMessage, text: Seq<char>) -> bool {
    &&& m.role == was.role
    &&& m.content@ == was.content@ + text
    &&& m.tool_calls == was.tool_calls
    &&& m.tool_call_id == was.tool_call_id
}

/// A fresh message with this role and content and nothing else.
pub open spec fn plain_message(m: WireMessage, role: Seq<char>, content: Seq<char>) -> bool {
    m.role@ == role && m.content@ == content && m.tool_calls is None && m.tool_call_id is None
}

/// The thread with an assistant message open: as it was when one already
/// is, else with an empty one (and its empty reasoning) added.
pub open spec fn opened(before: State, ms: Seq<WireMessage>, rs: Seq<String>) -> bool {
    if before.streaming {
        ms == before.messages@ && rs == before.reasoning@
    } else {
        &&& ms.len() == before.messages@.len() + 1
        &&& ms.take(before.messages@.len() as int) == before.messages@
        &&& plain_message(ms.last(), "assistant"@, Seq::empty())
        &&& rs.len() == before.reasoning@.len() + 1
        &&& rs.take(before.reasoning@.len() as int) == before.reasoning@
        &&& rs.last()@.len() == 0
    }
}

fn push_message(messages: &mut Vec<WireMessage>, reasoning: &mut Vec<String>, role: &str, content: String)
    ensures
        final(messages)@.len() == old(messages)@.len() + 1,
        final(messages)@.take(old(messages)@.len() as int) == old(messages)@,
        plain_message(final(messages)@.last(), role@, content@),
        final(reasoning)@.len() == old(reasoning)@.len() + 1,
        final(reasoning)@.take(old(reasoning)@.len() as int) == old(reasoning)@,
        final(reasoning)@.last()@.len() == 0,
{
    let ghost m0 = messages@;
    let ghost r0 = reasoning@;
    messages.push(WireMessage { role: role.to_owned(), content, tool_calls: None, tool_call_id: None });
    reasoning.push(String::new());
    assert(messages@.take(m0.len() as int) =~= m0);
    assert(reasoning@.take(r0.len() as int) =~= r0);
}

/// Open an assistant message when none is.
fn open_reply(messages: &mut Vec<WireMessage>, reasoning: &mut Vec<String>, streaming: bool)
    requires
        old(reasoning)@.len() == old(messages)@.len(),
    ensures
        streaming ==> final(messages)@ == old(messages)@ && final(reasoning)@ == old(reasoning)@,
        !streaming ==> {
            &&& final(messages)@.len() == old(messages)@.len() + 1
            &&& final(messages)@.take(old(messages)@.len() as int) == old(messages)@
            &&& plain_message(final(messages)@.last(), "assistant"@, Seq::empty())
            &&& final(reasoning)@.len() == old(reasoning)@.len() + 1
            &&& final(reasoning)@.take(old(reasoning)@.len() as int) == old(reasoning)@
            &&& final(reasoning)@.last()@.len() == 0
        },
        final(reasoning)@.len() == final(messages)@.len(),
{
    if !streaming {
        push_message(messages, reasoning, "assistant", String::new());
    }
}

/// Add `text` to the content of the last message.
fn grow_last(messages: &mut Vec<WireMessage>, text: &str)
    requires
        old(messages)@.len() > 0,
    ensures
        final(messages)@.len() == old(messages)@.len(),
        final(messages)@.drop_last() == old(messages)@.drop_last(),
        grown(old(messages)@.last(), final(messages)@.last(), text@),
{
    let ghost m0 = messages@;
    let mut m = messages.pop().unwrap();
    let mut c = chars_of(m.content.as_str());
    push_str(&mut c, text);
    m.content = string_of(c.as_slice());
    messages.push(m);
    assert(messages@.drop_last() =~= m0.drop_last());
}

/// Add `text` to the last reasoning text.
fn grow_last_text(texts_: &mut Vec<String>, text: &str)
    requires
        old(texts_)@.len() > 0,
    ensures
        final(texts_)@.len() == old(texts_)@.len(),
        final(texts_)@.drop_last() == old(texts_)@.drop_last(),
        final(texts_)@.last()@ == old(texts_)@.last()@ + text@,
{
    let ghost t0 = texts_@;
    let last = texts_.pop().unwrap();
    let mut c = chars_of(last.as_str());
    push_str(&mut c, text);
    texts_.push(string_of(c.as_slice()));
    assert(texts_@.drop_last() =~= t0.drop_last());
}

/// The calls split by whether the memory tools name them, each in order.
pub open spec fn split_calls(cs: Seq<(Seq<char>, Seq<char>, Seq<char>)>, memory_tools: Seq<Seq<char>>) -> (
    Seq<(Seq<char>, Seq<char>, Seq<char>)>,
    Seq<(Seq<char>, Seq<char>, Seq<char>)>,
)
    decreases cs.len(),
{
    if cs.len() == 0 {
        (Seq::empty(), Seq::empty())
    } else {
        let (m, t) = split_calls(cs.drop_last(), memory_tools);
        if memory_tools.contains(cs.last().1) {
            (m.push(cs.last()), t)
        } else {
            (m, t.push(cs.last()))
        }
    }
}

fn contains_name(list: &Vec<String>, name: &str) -> (r: bool)
    ensures
        r == texts(list@).contains(name@),
{
    let mut i: usize = 0;
    while i < list.len()
        invariant
            i <= list@.len(),
            forall|j: int| 0 <= j < i ==> (#[trigger] list@[j])@ != name@,
        decreases list@.len() - i,
    {
        if crate::text::str_eq(list[i].as_str(), name) {
            assert(texts(list@)[i as int] == name@);
            return true;
        }
        i = i + 1;
    }
    proof {
        if texts(list@).contains(name@) {
            let k = choose|k: int| 0 <= k < texts(list@).len() && texts(list@)[k] == name@;
            assert(list@[k]@ == name@);
        }
    }
    false
}

fn split_round(calls: Vec<ToolCall>, memory_tools: &Vec<String>) -> (r: (Vec<ToolCall>, Vec<ToolCall>))
    ensures
        (call_views(r.0@), call_views(r.1@)) == split_calls(call_views(calls@), texts(memory_tools@)),
{
    let ghost cv = call_views(calls@);
    let mut mem: Vec<ToolCall> = Vec::new();
    let mut shell: Vec<ToolCall> = Vec::new();
    let mut src = calls;
    let mut i: usize = 0;
    let n: usize = src.len();
    assert(cv.skip(0) =~= cv);
    while src.len() > 0
        invariant
            cv.len() == n,
            i <= cv.len(),
            call_views(src@) == cv.skip(i as int),
            (call_views(mem@), call_views(shell@)) == split_calls(cv.take(i as int), texts(memory_tools@)),
        decreases src@.len(),
    {
        let ghost s0 = src@;
        assert(call_views(s0).len() == s0.len());
        assert(i < cv.len());
        assert(call_views(s0)[0] == cv.skip(i as int)[0]);
        let c = src.remove(0);
        proof {
            assert(call_views(s0)[0] == cv[i as int]);
            assert(cv.take(i + 1).drop_last() =~= cv.take(i as int));
            assert(cv.take(i + 1).last() == cv[i as int]);
            assert forall|j: int| 0 <= j < src@.len() implies call_views(src@)[j] == cv.skip(i + 1)[j] by {
                assert(src@[j] == s0[j + 1]);
                assert(call_views(s0)[j + 1] == cv.skip(i as int)[j + 1]);
            }
            assert(call_views(src@) =~= cv.skip(i + 1));
        }
        let ghost m0 = mem@;
        let ghost t0 = shell@;
        if contains_name(memory_tools, c.name.as_str()) {
            mem.push(c);
            assert(call_views(mem@) =~= call_views(m0).push(cv[i as int]));
        } else {
            shell.push(c);
            assert(call_views(shell@) =~= call_views(t0).push(cv[i as int]));
        }
        i = i + 1;
    }
    assert(cv.take(i as int) =~= cv);
    (mem, shell)
}

/// The call at `j` before a piece arrives: as assembled so far, or empty
/// when the buffer does not reach it yet.
pub open spec fn call_before(buf: Seq<(Seq<char>, Seq<char>, Seq<char>)>, j: int) -> (Seq<char>, Seq<char>, Seq<char>) {
    if j < buf.len() {
        buf[j]
    } else {
        (Seq::empty(), Seq::empty(), Seq::empty())
    }
}

/// The calls after a piece for `d.index`: the buffer reaches that index,
/// every other call is as it was, and that one takes the piece's id and name
/// when it carries them and grows by its arguments.
pub open spec fn piece_added(before: Seq<(Seq<char>, Seq<char>, Seq<char>)>, d: Fragment, after: Seq<(Seq<char>, Seq<char>, Seq<char>)>) -> bool {
    let n: int = if d.index < before.len() { before.len() as int } else { d.index + 1 };
    let was = call_before(before, d.index as int);
    &&& after.len() == n
    &&& forall|j: int| 0 <= j < n && j != d.index ==> #[trigger] after[j] == call_before(before, j)
    &&& after[d.index as int] == (
        match d.id {
            Some(i) => i@,
            None => was.0,
        },
        match d.name {
            Some(x) => x@,
            None => was.1,
        },
        was.2 + d.arguments@,
    )
}

fn add_piece(buf: &mut Vec<ToolCall>, d: Fragment)
    requires
        d.index < usize::MAX,
    ensures
        piece_added(call_views(old(buf)@), d, call_views(final(buf)@)),
{
    let ghost b0 = call_views(buf@);
    let ghost d0 = d;
    while buf.len() <= d.index
        invariant
            d.index < usize::MAX,
            buf@.len() <= (if d.index < b0.len() { b0.len() as int } else { d.index + 1 }),
            buf@.len() >= b0.len(),
            forall|j: int| 0 <= j < buf@.len() ==> #[trigger] call_views(buf@)[j] == call_before(b0, j),
        decreases d.index + 1 - buf@.len(),
    {
        let ghost v0 = buf@;
        buf.push(ToolCall { id: String::new(), name: String::new(), arguments: String::new() });
        assert forall|j: int| 0 <= j < buf@.len() implies #[trigger] call_views(buf@)[j] == call_before(b0, j) by {
            if j < v0.len() {
                assert(buf@[j] == v0[j]);
                assert(call_views(v0)[j] == call_before(b0, j));
            }
        }
    }
    let ghost v1 = buf@;
    assert(call_views(v1)[d.index as int] == call_before(b0, d.index as int));
    let mut tc = buf.remove(d.index);
    let Fragment { index, id, name, arguments } = d;
    match id {
        Some(i) => {
            tc.id = i;
        },
        None => {},
    }
    match name {
        Some(x) => {
            tc.name = x;
        },
        None => {},
    }
    let mut a = chars_of(tc.arguments.as_str());
    push_str(&mut a, arguments.as_str());
    tc.arguments = string_of(a.as_slice());
    buf.insert(index, tc);
    assert forall|j: int| 0 <= j < buf@.len() && j != index implies #[trigger] call_views(buf@)[j] == call_before(b0, j) by {
        assert(buf@[j] == v1[j]);
        assert(call_views(v1)[j] == call_before(b0, j));
    }
}

// ---------------------------------------------------------------------------
// What each message does
// ---------------------------------------------------------------------------

/// The thread with a new message of `role` holding `content`, and its empty
/// reasoning.
pub open spec fn pushed(before: State, after: State, role: Seq<char>, content: Seq<char>) -> bool {
    &&& after.messages@.len() == before.messages@.len() + 1
    &&& after.messages@.take(before.messages@.len() as int) == before.messages@
    &&& plain_message(after.messages@.last(), role, content)
    &&& after.reasoning@.len() == before.reasoning@.len() + 1
    &&& after.reasoning@.take(before.reasoning@.len() as int) == before.reasoning@
    &&& after.reasoning@.last()@.len() == 0
}

/// A send: the trimmed draft as the user's message, the turn in flight and
/// its voice stopped, and a fresh request with the tools; nothing for a blank
/// draft.
pub open spec fn sent(before: State, after: State, fx: Seq<Effect>) -> bool {
    sent_text(before, before.draft@, after, fx)
}

/// A send of `text` in place of the draft.
pub open spec fn sent_text(before: State, text: Seq<char>, after: State, fx: Seq<Effect>) -> bool {
    let prompt = trim(text);
    if prompt.len() == 0 {
        after == before && fx.len() == 0
    } else {
        &&& after == (State {
            messages: after.messages,
            reasoning: after.reasoning,
            draft: after.draft,
            sending: true,
            streaming: false,
            tool_buf: after.tool_buf,
            tool_rounds: 0,
            speech_buf: after.speech_buf,
            speech_queue: after.speech_queue,
            ..before
        })
        &&& pushed(before, after, "user"@, prompt)
        &&& after.draft@.len() == 0
        &&& after.tool_buf@.len() == 0 && after.speech_buf@.len() == 0 && after.speech_queue@.len() == 0
        &&& fx == seq![Effect::Hush, Effect::AbortStream, Effect::Request { tools: true }]
    }
}

/// The turn stopped: the voice hushed, the stream dropped, the calls of the
/// round forgotten; what already arrived stays.
pub open spec fn aborted(before: State, after: State, fx: Seq<Effect>) -> bool {
    &&& after == (State {
        sending: false,
        streaming: false,
        tool_buf: after.tool_buf,
        speech_buf: after.speech_buf,
        speech_queue: after.speech_queue,
        ..before
    })
    &&& after.tool_buf@.len() == 0 && after.speech_buf@.len() == 0 && after.speech_queue@.len() == 0
    &&& fx == seq![Effect::Hush, Effect::AbortStream]
}

/// A piece of the reply: added to the open message (opening one first);
/// when the voice is on, every sentence it closes queued for the voice; and
/// the voice, if free, given the oldest waiting sentence.
pub open spec fn delta_added(before: State, text: Seq<char>, after: State, fx: Seq<Effect>) -> bool {
    let first0 = if before.streaming { before.first_chunk } else { true };
    let (b2, f2, q2) = if before.voice {
        drained(before.speech_buf@ + text, first0, texts(before.speech_queue@))
    } else {
        (before.speech_buf@, first0, texts(before.speech_queue@))
    };
    &&& after == (State {
        messages: after.messages,
        reasoning: after.reasoning,
        streaming: true,
        speech_buf: after.speech_buf,
        speech_queue: after.speech_queue,
        first_chunk: f2,
        synthesizing: after.synthesizing,
        ..before
    })
    &&& if before.streaming {
        &&& after.reasoning == before.reasoning
        &&& after.messages@.len() == before.messages@.len()
        &&& after.messages@.drop_last() == before.messages@.drop_last()
        &&& grown(before.messages@.last(), after.messages@.last(), text)
    } else {
        pushed(before, after, "assistant"@, text)
    }
    &&& after.speech_buf@ == b2
    &&& fx.len() >= 1 && fx[0] is ScrollToEnd
    &&& voice_next(before.synthesizing, q2, after.synthesizing, texts(after.speech_queue@), fx.skip(1))
}

/// A piece of reasoning: added to the open message's reasoning (opening one
/// first), never to what is spoken.
pub open spec fn reasoned(before: State, text: Seq<char>, after: State, fx: Seq<Effect>) -> bool {
    &&& after == (State { messages: after.messages, reasoning: after.reasoning, streaming: true, ..before })
    &&& if before.streaming {
        &&& after.messages == before.messages
        &&& after.reasoning@.len() == before.reasoning@.len()
        &&& after.reasoning@.drop_last() == before.reasoning@.drop_last()
        &&& after.reasoning@.last()@ == before.reasoning@.last()@ + text
    } else {
        &&& after.messages@.len() == before.messages@.len() + 1
        &&& after.messages@.take(before.messages@.len() as int) == before.messages@
        &&& plain_message(after.messages@.last(), "assistant"@, Seq::empty())
        &&& after.reasoning@.len() == before.reasoning@.len() + 1
        &&& after.reasoning@.take(before.reasoning@.len() as int) == before.reasoning@
        &&& after.reasoning@.last()@ == text
    }
    &&& fx == seq![Effect::ScrollToEnd]
}

/// The reply's unfinished last sentence, queued for the voice when it is on
/// and says something.
pub open spec fn tail_spoken(before: State) -> (Seq<Seq<char>>, bool) {
    if before.voice && !blank(before.speech_buf@) {
        enqueued(texts(before.speech_queue@), before.first_chunk, before.speech_buf@)
    } else {
        (texts(before.speech_queue@), before.first_chunk)
    }
}

/// The stream failed: nothing in flight, the error shown, and what did arrive
/// still spoken.
pub open spec fn failed_spec(before: State, e: String, after: State, fx: Seq<Effect>) -> bool {
    &&& after == (State {
        sending: false,
        streaming: false,
        tool_buf: after.tool_buf,
        error: Some(e),
        speech_buf: after.speech_buf,
        speech_queue: after.speech_queue,
        first_chunk: tail_spoken(before).1,
        synthesizing: after.synthesizing,
        ..before
    })
    &&& after.tool_buf@.len() == 0 && after.speech_buf@.len() == 0
    &&& voice_next(before.synthesizing, tail_spoken(before).0, after.synthesizing, texts(after.speech_queue@), fx)
}

/// A round of results: one tool message per result, in order, and the next
/// request, offering the tools while the round cap allows.
pub open spec fn results_added(before: State, rs: Seq<ToolOutcome>, after: State, fx: Seq<Effect>) -> bool {
    let n = before.messages@.len();
    &&& after == (State {
        messages: after.messages,
        reasoning: after.reasoning,
        tool_rounds: if before.tool_rounds < 255 { (before.tool_rounds + 1) as u8 } else { 255 },
        ..before
    })
    &&& after.messages@.len() == n + rs.len()
    &&& after.messages@.take(n as int) == before.messages@
    &&& forall|i: int| 0 <= i < rs.len() ==> {
        let m = #[trigger] after.messages@[n + i];
        &&& m.role@ == "tool"@
        &&& m.content == rs[i].output
        &&& m.tool_calls is None
        &&& m.tool_call_id == Some(rs[i].id)
    }
    &&& after.reasoning@.len() == before.reasoning@.len() + rs.len()
    &&& after.reasoning@.take(before.reasoning@.len() as int) == before.reasoning@
    &&& forall|i: int| before.reasoning@.len() <= i < after.reasoning@.len() ==> (#[trigger] after.reasoning@[i])@.len() == 0
    &&& fx == seq![Effect::Request { tools: after.tool_rounds < MAX_TOOL_ROUNDS }]
}

fn push_results(messages: &mut Vec<WireMessage>, reasoning: &mut Vec<String>, rs: Vec<ToolOutcome>)
    ensures
        final(messages)@.len() == old(messages)@.len() + rs@.len(),
        final(messages)@.take(old(messages)@.len() as int) == old(messages)@,
        forall|i: int| 0 <= i < rs@.len() ==> {
            let m = #[trigger] final(messages)@[old(messages)@.len() + i];
            &&& m.role@ == "tool"@
            &&& m.content == rs@[i].output
            &&& m.tool_calls is None
            &&& m.tool_call_id == Some(rs@[i].id)
        },
        final(reasoning)@.len() == old(reasoning)@.len() + rs@.len(),
        final(reasoning)@.take(old(reasoning)@.len() as int) == old(reasoning)@,
        forall|i: int| old(reasoning)@.len() <= i < final(reasoning)@.len() ==> (#[trigger] final(reasoning)@[i])@.len() == 0,
{
    let ghost m0 = messages@;
    let ghost r0 = reasoning@;
    let ghost rv = rs@;
    let mut src = rs;
    let mut i: usize = 0;
    let n: usize = src.len();
    assert(rv.skip(0) =~= rv);
    while src.len() > 0
        invariant
            rv.len() == n,
            i <= rv.len(),
            src@ == rv.skip(i as int),
            messages@.len() == m0.len() + i,
            messages@.take(m0.len() as int) == m0,
            forall|k: int| 0 <= k < i ==> {
                let m = #[trigger] messages@[m0.len() + k];
                &&& m.role@ == "tool"@
                &&& m.content == rv[k].output
                &&& m.tool_calls is None
                &&& m.tool_call_id == Some(rv[k].id)
            },
            reasoning@.len() == r0.len() + i,
            reasoning@.take(r0.len() as int) == r0,
            forall|k: int| r0.len() <= k < reasoning@.len() ==> (#[trigger] reasoning@[k])@.len() == 0,
        decreases src@.len(),
    {
        let ghost s0 = src@;
        assert(s0[0] == rv[i as int]);
        let r = src.remove(0);
        assert(src@ =~= rv.skip(i + 1));
        let ghost mb = messages@;
        let ghost rb = reasoning@;
        messages.push(WireMessage { role: "tool".to_owned(), content: r.output, tool_calls: None, tool_call_id: Some(r.id) });
        reasoning.push(String::new());
        assert(messages@.take(m0.len() as int) =~= mb.take(m0.len() as int));
        assert(reasoning@.take(r0.len() as int) =~= rb.take(r0.len() as int));
        assert forall|k: int| 0 <= k < i + 1 implies {
            let m = #[trigger] messages@[m0.len() + k];
            &&& m.role@ == "tool"@
            &&& m.content == rv[k].output
            &&& m.tool_calls is None
            &&& m.tool_call_id == Some(rv[k].id)
        } by {
            if k < i {
                assert(messages@[m0.len() + k] == mb[m0.len() + k]);
            }
        }
        assert forall|k: int| r0.len() <= k < reasoning@.len() implies (#[trigger] reasoning@[k])@.len() == 0 by {
            if k < rb.len() {
                assert(reasoning@[k] == rb[k]);
            }
        }
        i = i + 1;
    }
}


// ---------------------------------------------------------------------------
// The end of a reply
// ---------------------------------------------------------------------------

/// The calls a reply written out as prose stands for, when the reply made
/// no call of its own and its text is one.
pub open spec fn salvaged(before: State, mt: Seq<Seq<char>>) -> Option<Seq<(Seq<char>, Seq<char>)>> {
    if before.tool_buf@.len() == 0 && before.streaming {
        salvage_spec(before.messages@.last().content@, mt)
    } else {
        None
    }
}

/// The calls of the round that just ended: those the reply made, or those
/// its prose stands for, numbered as `salvaged_0`, `salvaged_1`, ...
pub open spec fn round_calls(before: State, mt: Seq<Seq<char>>) -> Seq<(Seq<char>, Seq<char>, Seq<char>)> {
    match salvaged(before, mt) {
        Some(cs) => Seq::new(
            cs.len(),
            |i: int| ("salvaged_"@ + crate::text::nat_text(i as nat), cs[i].0, cs[i].1),
        ),
        None => call_views(before.tool_buf@),
    }
}

/// The reply ended. What is left of its last sentence goes to the voice.
/// A reply whose prose is a call loses that prose, and what was queued of
/// it. A round of calls is attached to the reply (opening an empty one when
/// the model wrote nothing) and handed out to run, split by the memory
/// tools, the turn going on; otherwise the turn is over, and a reply of
/// nothing at all is an error.
pub open spec fn done_spec(before: State, mt: Seq<Seq<char>>, after: State, fx: Seq<Effect>) -> bool {
    let streamed = before.streaming;
    let q1 = tail_spoken(before).0;
    let sv = salvaged(before, mt);
    let round = round_calls(before, mt);
    let q2 = if sv is Some { Seq::<Seq<char>>::empty() } else { q1 };
    &&& after.draft == before.draft && after.voice == before.voice
    &&& after.tool_rounds == before.tool_rounds
    &&& !after.streaming && after.tool_buf@.len() == 0 && after.speech_buf@.len() == 0
    &&& after.first_chunk == tail_spoken(before).1
    &&& if round.len() > 0 {
        let last = after.messages@.last();
        &&& after.sending == before.sending && after.error == before.error
        &&& if streamed {
            let was = before.messages@.last();
            &&& after.messages@.len() == before.messages@.len()
            &&& after.messages@.drop_last() == before.messages@.drop_last()
            &&& last.role == was.role && last.tool_call_id == was.tool_call_id
            &&& if sv is Some { last.content@.len() == 0 } else { last.content == was.content }
            &&& after.reasoning == before.reasoning
        } else {
            &&& after.messages@.drop_last() == before.messages@
            &&& last.role@ == "assistant"@ && last.content@.len() == 0 && last.tool_call_id is None
            &&& after.reasoning@.drop_last() == before.reasoning@
            &&& after.reasoning@.last()@.len() == 0
        }
        &&& after.messages@.len() > 0
        &&& last.tool_calls matches Some(v) && call_views(v@) == round
        &&& fx.len() >= 2 && fx[0] is ScrollToEnd
        &&& fx.last() matches Effect::RunTools { memory, shell } && (call_views(memory@), call_views(shell@))
            == split_calls(round, mt)
        &&& voice_next(
            before.synthesizing,
            q2,
            after.synthesizing,
            texts(after.speech_queue@),
            fx.subrange(1, fx.len() - 1),
        )
    } else {
        &&& after.messages == before.messages && after.reasoning == before.reasoning
        &&& !after.sending
        &&& if streamed {
            after.error == before.error
        } else {
            after.error matches Some(e) && e@ == EMPTY_REPLY@
        }
        &&& fx.len() >= 2 && fx[0] is ReplyEnded && fx[1] is ScrollToEnd
        &&& voice_next(before.synthesizing, q2, after.synthesizing, texts(after.speech_queue@), fx.skip(2))
    }
}

/// The last message with its content emptied.
fn clear_last_content(messages: &mut Vec<WireMessage>)
    requires
        old(messages)@.len() > 0,
    ensures
        final(messages)@.len() == old(messages)@.len(),
        final(messages)@.drop_last() == old(messages)@.drop_last(),
        final(messages)@.last().role == old(messages)@.last().role,
        final(messages)@.last().tool_calls == old(messages)@.last().tool_calls,
        final(messages)@.last().tool_call_id == old(messages)@.last().tool_call_id,
        final(messages)@.last().content@.len() == 0,
{
    let ghost m0 = messages@;
    let mut m = messages.pop().unwrap();
    m.content = String::new();
    messages.push(m);
    assert(messages@.drop_last() =~= m0.drop_last());
}

/// The last message with these calls attached.
fn set_last_calls(messages: &mut Vec<WireMessage>, calls: Vec<ToolCall>)
    requires
        old(messages)@.len() > 0,
    ensures
        final(messages)@.len() == old(messages)@.len(),
        final(messages)@.drop_last() == old(messages)@.drop_last(),
        final(messages)@.last().role == old(messages)@.last().role,
        final(messages)@.last().content == old(messages)@.last().content,
        final(messages)@.last().tool_call_id == old(messages)@.last().tool_call_id,
        final(messages)@.last().tool_calls == Some(calls),
{
    let ghost m0 = messages@;
    let mut m = messages.pop().unwrap();
    m.tool_calls = Some(calls);
    messages.push(m);
    assert(messages@.drop_last() =~= m0.drop_last());
}

impl State {
    /// The tail of the reply to the voice, and the buffer emptied.
    fn speak_tail(&mut self)
        ensures
            final(self).speech_buf@.len() == 0,
            (texts(final(self).speech_queue@), final(self).first_chunk) == tail_spoken(*old(self)),
            *final(self) == (State {
                speech_buf: final(self).speech_buf,
                speech_queue: final(self).speech_queue,
                first_chunk: final(self).first_chunk,
                ..*old(self)
            }),
    {
        if self.voice && !is_blank(self.speech_buf.as_str()) {
            enqueue(&mut self.speech_queue, &mut self.first_chunk, self.speech_buf.as_str());
        }
        self.speech_buf = String::new();
    }

    /// A prose call taken for the round's calls: the text emptied, what of
    /// it was queued for the voice dropped.
    fn salvage(&mut self, memory_tools: &Vec<String>) -> (hit: bool)
        requires
            old(self).wf(),
        ensures
            final(self).wf(),
            hit == (salvaged(*old(self), texts(memory_tools@)) is Some),
            call_views(final(self).tool_buf@) == round_calls(*old(self), texts(memory_tools@)),
            hit ==> {
                &&& final(self).messages@.len() == old(self).messages@.len()
                &&& final(self).messages@.drop_last() == old(self).messages@.drop_last()
                &&& final(self).messages@.last().role == old(self).messages@.last().role
                &&& final(self).messages@.last().tool_calls == old(self).messages@.last().tool_calls
                &&& final(self).messages@.last().tool_call_id == old(self).messages@.last().tool_call_id
                &&& final(self).messages@.last().content@.len() == 0
                &&& final(self).speech_queue@.len() == 0
                &&& *final(self) == (State {
                    messages: final(self).messages,
                    speech_queue: final(self).speech_queue,
                    tool_buf: final(self).tool_buf,
                    ..*old(self)
                })
            },
            !hit ==> *final(self) == *old(self),
    {
        if self.tool_buf.len() == 0 && self.streaming {
            let last = self.messages.len() - 1;
            match salvage_calls(self.messages[last].content.as_str(), memory_tools.as_slice()) {
                Some(calls) => {
                    proof {
                        let cs = salvage_spec(old(self).messages@.last().content@, texts(memory_tools@))->0;
                        assert(call_views(calls@) =~= round_calls(*old(self), texts(memory_tools@)));
                    }
                    clear_last_content(&mut self.messages);
                    self.speech_queue = Vec::new();
                    self.tool_buf = calls;
                    return true;
                },
                None => {},
            }
        }
        false
    }

    fn on_done(&mut self, memory_tools: &Vec<String>) -> (fx: Vec<Effect>)
        requires
            old(self).wf(),
        ensures
            final(self).wf(),
            done_spec(*old(self), texts(memory_tools@), *final(self), fx@),
    {
        let ghost s0 = *self;
        let streamed = self.streaming;
        self.streaming = false;
        self.speak_tail();
        let ghost s1 = *self;
        self.streaming = streamed;
        let ghost s1b = *self;
        assert(salvaged(s1b, texts(memory_tools@)) == salvaged(s0, texts(memory_tools@)));
        let hit = self.salvage(memory_tools);
        self.streaming = false;
        let ghost s2 = *self;
        if self.tool_buf.len() > 0 {
            let mut calls: Vec<ToolCall> = Vec::new();
            std::mem::swap(&mut calls, &mut self.tool_buf);
            if !streamed {
                push_message(&mut self.messages, &mut self.reasoning, "assistant", String::new());
            }
            let copy = copy_calls(&calls);
            let ghost m_before = self.messages@;
            proof {
                if streamed && !hit {
                    assert(s2.messages == s0.messages);
                    assert(m_before.last() == s0.messages@.last());
                }
            }
            set_last_calls(&mut self.messages, copy);
            let (mem, shell) = split_round(calls, memory_tools);
            let mut fx: Vec<Effect> = Vec::new();
            fx.push(Effect::ScrollToEnd);
            let ghost q_mid = texts(self.speech_queue@);
            let ghost synth_mid = self.synthesizing;
            proof {
                let sv = salvaged(s0, texts(memory_tools@));
                assert(tail_spoken(s0) == tail_spoken(s1));
                if sv is Some {
                    assert(q_mid =~= Seq::<Seq<char>>::empty());
                } else {
                    assert(q_mid == tail_spoken(s0).0);
                }
                assert(synth_mid == s0.synthesizing);
            }
            next_synthesis(&mut self.synthesizing, &mut self.speech_queue, &mut fx);
            let ghost f1 = fx@;
            fx.push(Effect::RunTools { memory: mem, shell });
            assert(fx@.subrange(1, fx@.len() - 1) =~= f1.skip(1));
            assert(fx@[0] == f1[0]);
            assert(f1.take(1)[0] == f1[0]);
            assert(fx@.last() == Effect::RunTools { memory: mem, shell });
            proof {
                let round = round_calls(s0, texts(memory_tools@));
                assert(call_views(calls@) == round);
                if streamed {
                    assert(s2.messages@.len() == s0.messages@.len());
                }
            }
            fx
        } else {
            self.sending = false;
            if !streamed {
                self.error = Some(EMPTY_REPLY.to_owned());
            }
            let mut fx: Vec<Effect> = Vec::new();
            fx.push(Effect::ReplyEnded);
            fx.push(Effect::ScrollToEnd);
            next_synthesis(&mut self.synthesizing, &mut self.speech_queue, &mut fx);
            assert(fx@[0] == fx@.take(2)[0] && fx@[1] == fx@.take(2)[1]);
            fx
        }
    }
}


// ---------------------------------------------------------------------------
// The voice switch, the clear, and the step
// ---------------------------------------------------------------------------

/// The voice switched: off stops it and drops what it had waiting.
pub open spec fn toggled(before: State, after: State, fx: Seq<Effect>) -> bool {
    if before.voice {
        &&& after == (State {
            voice: false,
            speech_buf: after.speech_buf,
            speech_queue: after.speech_queue,
            ..before
        })
        &&& after.speech_buf@.len() == 0 && after.speech_queue@.len() == 0
        &&& fx.len() == 1 && fx[0] is Hush
    } else {
        after == (State { voice: true, ..before }) && fx.len() == 0
    }
}

/// The thread cleared: no messages, nothing in flight, no error, the voice
/// stopped; the draft and the switches stay.
pub open spec fn cleared(before: State, after: State, fx: Seq<Effect>) -> bool {
    &&& after == (State {
        messages: after.messages,
        reasoning: after.reasoning,
        streaming: false,
        tool_buf: after.tool_buf,
        tool_rounds: 0,
        error: None,
        speech_buf: after.speech_buf,
        speech_queue: after.speech_queue,
        reasoning_open: after.reasoning_open,
        ..before
    })
    &&& after.messages@.len() == 0 && after.reasoning@.len() == 0 && after.tool_buf@.len() == 0
    &&& after.reasoning_open@.len() == 0
    &&& after.speech_buf@.len() == 0 && after.speech_queue@.len() == 0
    &&& fx.len() == 1 && fx[0] is Hush
}

/// What one message does to the thread, and what it asks of the program
/// around it; `mt` names the memory tools.
pub open spec fn updated(before: State, mt: Seq<Seq<char>>, msg: Message, after: State, fx: Seq<Effect>) -> bool {
    match msg {
        Message::DraftChanged(v) => after == (State { draft: v, ..before }) && fx.len() == 0,
        Message::Send => sent(before, after, fx),
        Message::Abort => aborted(before, after, fx),
        Message::ToolPiece(d) => {
            &&& after == (State { tool_buf: after.tool_buf, ..before })
            &&& piece_added(call_views(before.tool_buf@), d, call_views(after.tool_buf@))
            &&& fx.len() == 0
        },
        Message::Delta(t) => delta_added(before, t@, after, fx),
        Message::Reasoning(t) => reasoned(before, t@, after, fx),
        Message::Done => done_spec(before, mt, after, fx),
        Message::Failed(e) => failed_spec(before, e, after, fx),
        Message::ToolResults(rs) => results_added(before, rs@, after, fx),
        Message::VoiceReady => {
            &&& after == (State {
                synthesizing: after.synthesizing,
                speech_queue: after.speech_queue,
                ..before
            })
            &&& voice_next(false, texts(before.speech_queue@), after.synthesizing, texts(after.speech_queue@), fx)
        },
        Message::ToggleVoice => toggled(before, after, fx),
        Message::Clear => cleared(before, after, fx),
        Message::DismissError => after == (State { error: None, ..before }) && fx.len() == 0,
        Message::ProviderChanged(v) => {
            &&& after.provider@ == v@
            &&& after.model@ == if keeps_model(before.catalog@, v@, before.model@) {
                before.model@
            } else {
                Seq::empty()
            }
            &&& after == (State { provider: after.provider, model: after.model, ..before })
            &&& fx.len() == 0
        },
        Message::ModelChanged(v) => after == (State { model: v, ..before }) && fx.len() == 0,
        Message::UseDefaults => {
            &&& after.provider@.len() == 0 && after.model@.len() == 0
            &&& after == (State { provider: after.provider, model: after.model, ..before })
            &&& fx.len() == 0
        },
        Message::CatalogLoaded(Ok(c)) => {
            &&& after.catalog@ == configured_spec(c@)
            &&& after == (State { catalog: after.catalog, ..before })
            &&& fx.len() == 0
        },
        Message::CatalogLoaded(Err(_)) => after == before && fx.len() == 0,
        Message::ToggleReasoning(i) => {
            &&& after == (State { reasoning_open: after.reasoning_open, ..before })
            &&& forall|k: usize| #[trigger] after.reasoning_open@.contains(k) == if k == i {
                !before.reasoning_open@.contains(i)
            } else {
                before.reasoning_open@.contains(k)
            }
            &&& fx.len() == 0
        },
        Message::LinkClicked(url) => {
            &&& after == before
            &&& if web_link(url@) {
                fx.len() == 1 && fx[0] == Effect::OpenLink(url)
            } else {
                fx.len() == 0
            }
        },
        Message::Heard { text, mine, follow_up } => heard_spec(before, text, mine, follow_up, after, fx),
    }
}

/// A link that is safe to hand to the browser: an `http` or `https` one.
pub open spec fn web_link(url: Seq<char>) -> bool {
    "http://"@.is_prefix_of(url) || "https://"@.is_prefix_of(url)
}

/// What a heard utterance is sent as, if it is sent on its own: what follows
/// the name when the user's own voice names the assistant (`?` when nothing
/// does), or all of it inside the follow-up window; nothing otherwise.
pub open spec fn heard_route(t: Seq<char>, mine: bool, follow_up: bool) -> Option<Seq<char>> {
    let named = if mine { addressed_spec(t) } else { None };
    match named {
        Some(body) => if !blank(body) { Some(body) } else { Some("?"@) },
        None => if follow_up && mine { Some(t) } else { None },
    }
}

/// A heard utterance. A failure is shown; silence and the transcriber's
/// stock captions for it do nothing. Speech aimed at the assistant is sent
/// as if typed; anything else is parked in the composer, after what is
/// already there, never in place of it.
pub open spec fn heard_spec(
    before: State,
    text: Result<String, String>,
    mine: bool,
    follow_up: bool,
    after: State,
    fx: Seq<Effect>,
) -> bool {
    match text {
        Err(e) => after == (State { error: Some(e), ..before }) && fx.len() == 0,
        Ok(t) => if blank(t@) || is_ghost_caption(ghost_key(t@)) {
            after == before && fx.len() == 0
        } else {
            match heard_route(t@, mine, follow_up) {
                Some(d) => sent_text(before, d, after, fx),
                None => {
                    &&& after == (State { draft: after.draft, ..before })
                    &&& after.draft@ == (if blank(before.draft@) {
                        before.draft@
                    } else {
                        before.draft@.push(' ')
                    }) + t@
                    &&& fx.len() == 0
                },
            }
        },
    }
}

/// The list with every `i` taken out.
pub open spec fn without(s: Seq<usize>, i: usize) -> Seq<usize>
    decreases s.len(),
{
    if s.len() == 0 {
        s
    } else if s.last() == i {
        without(s.drop_last(), i)
    } else {
        without(s.drop_last(), i).push(s.last())
    }
}

proof fn lemma_without_contains(s: Seq<usize>, i: usize, k: usize)
    ensures
        without(s, i).contains(k) == (k != i && s.contains(k)),
    decreases s.len(),
{
    if s.len() > 0 {
        let d = s.drop_last();
        lemma_without_contains(d, i, k);
        let w = without(d, i);
        if s.contains(k) && k != s.last() {
            let x = choose|x: int| 0 <= x < s.len() && s[x] == k;
            assert(d[x] == k);
        }
        if d.contains(k) {
            let x = choose|x: int| 0 <= x < d.len() && d[x] == k;
            assert(s[x] == k);
        }
        if s.last() != i {
            if w.push(s.last()).contains(k) && k != s.last() {
                let x = choose|x: int| 0 <= x < w.push(s.last()).len() && w.push(s.last())[x] == k;
                assert(w[x] == k);
            }
            if w.contains(k) {
                let x = choose|x: int| 0 <= x < w.len() && w[x] == k;
                assert(w.push(s.last())[x] == k);
            }
            assert(w.push(s.last())[w.len() as int] == s.last());
            assert(s[s.len() - 1] == s.last());
        } else {
            assert(s[s.len() - 1] == s.last());
        }
    }
}

/// The list with `i` taken out where it is, and added where it is not.
fn toggled_in(v: &Vec<usize>, i: usize) -> (r: Vec<usize>)
    ensures
        forall|k: usize| #[trigger] r@.contains(k) == if k == i {
            !v@.contains(i)
        } else {
            v@.contains(k)
        },
{
    let mut out: Vec<usize> = Vec::new();
    let mut found = false;
    let mut j: usize = 0;
    while j < v.len()
        invariant
            j <= v@.len(),
            found == v@.take(j as int).contains(i),
            out@ == without(v@.take(j as int), i),
        decreases v@.len() - j,
    {
        let x = v[j];
        let ghost pre = v@.take(j as int);
        let ghost nxt = v@.take(j + 1);
        assert(nxt.drop_last() =~= pre);
        assert(nxt.last() == x);
        proof {
            if pre.contains(i) {
                let w = choose|w: int| 0 <= w < pre.len() && pre[w] == i;
                assert(nxt[w] == i);
            }
            if nxt.contains(i) && x != i {
                let w = choose|w: int| 0 <= w < nxt.len() && nxt[w] == i;
                assert(pre[w] == i);
            }
            if x == i {
                assert(nxt[j as int] == i);
            }
        }
        if x == i {
            found = true;
        } else {
            out.push(x);
        }
        j = j + 1;
    }
    assert(v@.take(j as int) =~= v@);
    let ghost o0 = out@;
    if !found {
        out.push(i);
    }
    assert forall|k: usize| #[trigger] out@.contains(k) == (if k == i {
        !v@.contains(i)
    } else {
        v@.contains(k)
    }) by {
        lemma_without_contains(v@, i, k);
        lemma_without_contains(v@, i, i);
        if !found {
            assert(out@ == o0.push(i));
            assert(out@[o0.len() as int] == i);
            if out@.contains(k) && k != i {
                let w = choose|w: int| 0 <= w < out@.len() && out@[w] == k;
                assert(o0[w] == k);
            }
            if o0.contains(k) {
                let w = choose|w: int| 0 <= w < o0.len() && o0[w] == k;
                assert(out@[w] == k);
            }
        }
    }
    out
}

impl State {
    /// Stop the voice: nothing is left for it to say.
    pub fn hush(&mut self)
        ensures
            *final(self) == (State {
                speech_buf: final(self).speech_buf,
                speech_queue: final(self).speech_queue,
                ..*old(self)
            }),
            final(self).speech_buf@.len() == 0 && final(self).speech_queue@.len() == 0,
    {
        self.speech_buf = String::new();
        self.speech_queue = Vec::new();
    }

    fn on_send(&mut self) -> (fx: Vec<Effect>)
        requires
            old(self).wf(),
        ensures
            final(self).wf(),
            sent(*old(self), *final(self), fx@),
    {
        if is_blank(self.draft.as_str()) {
            return Vec::new();
        }
        let prompt = trim_str(self.draft.as_str());
        self.hush();
        self.sending = false;
        self.streaming = false;
        self.tool_buf = Vec::new();
        push_message(&mut self.messages, &mut self.reasoning, "user", prompt);
        self.draft = String::new();
        self.sending = true;
        self.tool_rounds = 0;
        let tools = self.tool_rounds < MAX_TOOL_ROUNDS;
        let mut fx: Vec<Effect> = Vec::new();
        fx.push(Effect::Hush);
        fx.push(Effect::AbortStream);
        fx.push(Effect::Request { tools });
        assert(fx@ =~= seq![Effect::Hush, Effect::AbortStream, Effect::Request { tools: true }]);
        fx
    }

    fn on_abort(&mut self) -> (fx: Vec<Effect>)
        requires
            old(self).wf(),
        ensures
            final(self).wf(),
            aborted(*old(self), *final(self), fx@),
    {
        self.hush();
        self.sending = false;
        self.streaming = false;
        self.tool_buf = Vec::new();
        let mut fx: Vec<Effect> = Vec::new();
        fx.push(Effect::Hush);
        fx.push(Effect::AbortStream);
        assert(fx@ =~= seq![Effect::Hush, Effect::AbortStream]);
        fx
    }

    fn on_delta(&mut self, text: String) -> (fx: Vec<Effect>)
        requires
            old(self).wf(),
        ensures
            final(self).wf(),
            delta_added(*old(self), text@, *final(self), fx@),
    {
        if !self.streaming {
            push_message(&mut self.messages, &mut self.reasoning, "assistant", String::new());
            self.streaming = true;
            self.first_chunk = true;
        }
        grow_last(&mut self.messages, text.as_str());
        proof {
            if !old(self).streaming {
                assert(self.messages@.last().content@ =~= text@);
                assert(self.messages@.take(old(self).messages@.len() as int) =~= self.messages@.drop_last());
            }
        }
        if self.voice {
            let mut c = chars_of(self.speech_buf.as_str());
            push_str(&mut c, text.as_str());
            self.speech_buf = string_of(c.as_slice());
            drain(&mut self.speech_buf, &mut self.speech_queue, &mut self.first_chunk);
        }
        let mut fx: Vec<Effect> = Vec::new();
        fx.push(Effect::ScrollToEnd);
        next_synthesis(&mut self.synthesizing, &mut self.speech_queue, &mut fx);
        assert(fx@[0] == fx@.take(1)[0]);
        fx
    }

    fn on_reasoning(&mut self, text: String) -> (fx: Vec<Effect>)
        requires
            old(self).wf(),
        ensures
            final(self).wf(),
            reasoned(*old(self), text@, *final(self), fx@),
    {
        if !self.streaming {
            push_message(&mut self.messages, &mut self.reasoning, "assistant", String::new());
            self.streaming = true;
        }
        grow_last_text(&mut self.reasoning, text.as_str());
        proof {
            if !old(self).streaming {
                assert(self.reasoning@.last()@ =~= text@);
                assert(self.reasoning@.take(old(self).reasoning@.len() as int) =~= self.reasoning@.drop_last());
            }
        }
        let mut fx: Vec<Effect> = Vec::new();
        fx.push(Effect::ScrollToEnd);
        assert(fx@ =~= seq![Effect::ScrollToEnd]);
        fx
    }

    fn on_failed(&mut self, e: String) -> (fx: Vec<Effect>)
        requires
            old(self).wf(),
        ensures
            final(self).wf(),
            failed_spec(*old(self), e, *final(self), fx@),
    {
        self.sending = false;
        self.streaming = false;
        self.tool_buf = Vec::new();
        self.error = Some(e);
        self.speak_tail();
        let mut fx: Vec<Effect> = Vec::new();
        next_synthesis(&mut self.synthesizing, &mut self.speech_queue, &mut fx);
        assert(fx@.skip(0) =~= fx@);
        fx
    }

    fn on_results(&mut self, rs: Vec<ToolOutcome>) -> (fx: Vec<Effect>)
        requires
            old(self).wf(),
        ensures
            final(self).wf(),
            results_added(*old(self), rs@, *final(self), fx@),
    {
        push_results(&mut self.messages, &mut self.reasoning, rs);
        self.tool_rounds = if self.tool_rounds < 255 {
            self.tool_rounds + 1
        } else {
            255
        };
        let mut fx: Vec<Effect> = Vec::new();
        fx.push(Effect::Request { tools: self.tool_rounds < MAX_TOOL_ROUNDS });
        assert(fx@ =~= seq![Effect::Request { tools: self.tool_rounds < MAX_TOOL_ROUNDS }]);
        fx
    }

    fn on_voice_ready(&mut self) -> (fx: Vec<Effect>)
        requires
            old(self).wf(),
        ensures
            final(self).wf(),
            *final(self) == (State {
                synthesizing: final(self).synthesizing,
                speech_queue: final(self).speech_queue,
                ..*old(self)
            }),
            voice_next(false, texts(old(self).speech_queue@), final(self).synthesizing, texts(final(self).speech_queue@), fx@),
    {
        self.synthesizing = false;
        let mut fx: Vec<Effect> = Vec::new();
        next_synthesis(&mut self.synthesizing, &mut self.speech_queue, &mut fx);
        assert(fx@.skip(0) =~= fx@);
        fx
    }

    fn on_toggle_voice(&mut self) -> (fx: Vec<Effect>)
        requires
            old(self).wf(),
        ensures
            final(self).wf(),
            toggled(*old(self), *final(self), fx@),
    {
        self.voice = !self.voice;
        let mut fx: Vec<Effect> = Vec::new();
        if !self.voice {
            self.hush();
            fx.push(Effect::Hush);
        }
        fx
    }

    fn on_clear(&mut self) -> (fx: Vec<Effect>)
        requires
            old(self).wf(),
        ensures
            final(self).wf(),
            cleared(*old(self), *final(self), fx@),
    {
        self.hush();
        self.messages = Vec::new();
        self.reasoning = Vec::new();
        self.streaming = false;
        self.tool_buf = Vec::new();
        self.tool_rounds = 0;
        self.error = None;
        self.reasoning_open = Vec::new();
        let mut fx: Vec<Effect> = Vec::new();
        fx.push(Effect::Hush);
        fx
    }

    fn on_heard(&mut self, text: Result<String, String>, mine: bool, follow_up: bool) -> (fx: Vec<Effect>)
        requires
            old(self).wf(),
        ensures
            final(self).wf(),
            heard_spec(*old(self), text, mine, follow_up, *final(self), fx@),
    {
        let t = match text {
            Err(e) => {
                self.error = Some(e);
                return Vec::new();
            },
            Ok(t) => t,
        };
        if is_blank(t.as_str()) || is_ghost(t.as_str()) {
            return Vec::new();
        }
        let named = if mine {
            addressed(t.as_str())
        } else {
            None
        };
        let route: Option<String> = match named {
            Some(body) => if !is_blank(body.as_str()) {
                Some(body)
            } else {
                Some("?".to_owned())
            },
            None => if follow_up && mine {
                Some(t.clone())
            } else {
                None
            },
        };
        proof {
            reveal_strlit("?");
        }
        match route {
            Some(d) => {
                self.draft = d;
                self.on_send()
            },
            None => {
                let mut c = chars_of(self.draft.as_str());
                if !is_blank(self.draft.as_str()) {
                    c.push(' ');
                }
                push_str(&mut c, t.as_str());
                self.draft = string_of(c.as_slice());
                Vec::new()
            },
        }
    }

    /// The thread after one message, and what the program around it is to
    /// do, in order.
    pub fn step(self, memory_tools: &Vec<String>, msg: Message) -> (r: (State, Vec<Effect>))
        requires
            self.wf(),
            msg matches Message::ToolPiece(d) ==> d.index < usize::MAX,
        ensures
            r.0.wf(),
            updated(self, texts(memory_tools@), msg, r.0, r.1@),
    {
        let mut s = self;
        let fx = match msg {
            Message::DraftChanged(v) => {
                s.draft = v;
                Vec::new()
            },
            Message::Send => s.on_send(),
            Message::Abort => s.on_abort(),
            Message::ToolPiece(d) => {
                add_piece(&mut s.tool_buf, d);
                Vec::new()
            },
            Message::Delta(t) => s.on_delta(t),
            Message::Reasoning(t) => s.on_reasoning(t),
            Message::Done => s.on_done(memory_tools),
            Message::Failed(e) => s.on_failed(e),
            Message::ToolResults(rs) => s.on_results(rs),
            Message::VoiceReady => s.on_voice_ready(),
            Message::ToggleVoice => s.on_toggle_voice(),
            Message::Clear => s.on_clear(),
            Message::DismissError => {
                s.error = None;
                Vec::new()
            },
            Message::ProviderChanged(v) => {
                choose_provider(&s.catalog, &mut s.provider, &mut s.model, v);
                Vec::new()
            },
            Message::ModelChanged(v) => {
                s.model = v;
                Vec::new()
            },
            Message::UseDefaults => {
                s.provider = String::new();
                s.model = String::new();
                Vec::new()
            },
            Message::CatalogLoaded(Ok(providers)) => {
                s.catalog = configured_only(providers);
                Vec::new()
            },
            Message::CatalogLoaded(Err(_)) => Vec::new(),
            Message::ToggleReasoning(i) => {
                s.reasoning_open = toggled_in(&s.reasoning_open, i);
                Vec::new()
            },
            Message::LinkClicked(url) => {
                let mut fx: Vec<Effect> = Vec::new();
                if starts_with_str(url.as_str(), "http://") || starts_with_str(url.as_str(), "https://") {
                    fx.push(Effect::OpenLink(url));
                }
                fx
            },
            Message::Heard { text, mine, follow_up } => s.on_heard(text, mine, follow_up),
        };
        (s, fx)
    }
}


// ---------------------------------------------------------------------------
// Laws
// ---------------------------------------------------------------------------

/// Reasoning is shown but never spoken: a piece of it leaves what waits for
/// the voice as it was, and hands the voice nothing.
pub proof fn reasoning_is_never_spoken(
    before: State,
    mt: Seq<Seq<char>>,
    t: String,
    after: State,
    fx: Seq<Effect>,
)
    requires
        updated(before, mt, Message::Reasoning(t), after, fx),
    ensures
        after.speech_buf == before.speech_buf,
        after.speech_queue == before.speech_queue,
        after.synthesizing == before.synthesizing,
        forall|i: int| 0 <= i < fx.len() ==> !(#[trigger] fx[i] is Speak),
{
}

/// Stopping a turn keeps what already arrived: every message and its
/// reasoning stay, and nothing is in flight any more.
pub proof fn an_abort_keeps_what_arrived(before: State, mt: Seq<Seq<char>>, after: State, fx: Seq<Effect>)
    requires
        updated(before, mt, Message::Abort, after, fx),
    ensures
        after.messages == before.messages,
        after.reasoning == before.reasoning,
        !after.sending && !after.streaming,
        after.tool_buf@.len() == 0 && after.speech_queue@.len() == 0,
{
}

/// Talking over a reply replaces the turn rather than being dropped: the
/// reply so far stays, the new words follow it, the old stream is cut and a
/// new one asked for.
pub proof fn a_send_over_a_reply_replaces_it(before: State, mt: Seq<Seq<char>>, after: State, fx: Seq<Effect>)
    requires
        updated(before, mt, Message::Send, after, fx),
        trim(before.draft@).len() > 0,
    ensures
        after.messages@.drop_last() == before.messages@,
        after.messages@.last().role@ == "user"@,
        after.messages@.last().content@ == trim(before.draft@),
        after.sending && !after.streaming && after.tool_rounds == 0,
        fx.len() == 3 && fx[0] is Hush && fx[1] is AbortStream,
        fx[2] == (Effect::Request { tools: true }),
{
    assert(after.messages@.drop_last() =~= after.messages@.take(before.messages@.len() as int));
}

/// A blank draft sends nothing and changes nothing.
pub proof fn a_blank_send_is_nothing(before: State, mt: Seq<Seq<char>>, after: State, fx: Seq<Effect>)
    requires
        updated(before, mt, Message::Send, after, fx),
        trim(before.draft@).len() == 0,
    ensures
        after == before,
        fx.len() == 0,
{
}

/// Past the round cap the tools are no longer offered, which forces an
/// answer in words instead of an endless loop of calls.
pub proof fn the_round_cap_withholds_the_tools(
    before: State,
    mt: Seq<Seq<char>>,
    rs: Vec<ToolOutcome>,
    after: State,
    fx: Seq<Effect>,
)
    requires
        updated(before, mt, Message::ToolResults(rs), after, fx),
        before.tool_rounds + 1 >= MAX_TOOL_ROUNDS,
    ensures
        fx.len() == 1,
        fx[0] == (Effect::Request { tools: false }),
        after.messages@.len() == before.messages@.len() + rs@.len(),
{
}

/// A reply that ends with neither a word nor a call is an error, and the
/// turn is over.
pub proof fn an_empty_reply_is_an_error(before: State, mt: Seq<Seq<char>>, after: State, fx: Seq<Effect>)
    requires
        updated(before, mt, Message::Done, after, fx),
        !before.streaming,
        before.tool_buf@.len() == 0,
    ensures
        after.error matches Some(e) && e@ == EMPTY_REPLY@,
        !after.sending,
        after.messages == before.messages,
{
    assert(salvaged(before, mt) is None);
    assert(round_calls(before, mt) =~= Seq::<(Seq<char>, Seq<char>, Seq<char>)>::empty());
}

/// A reply with calls keeps the turn open: the calls are attached to the
/// reply, none is left waiting, and the last thing asked is to run them.
pub proof fn a_tool_round_keeps_the_turn_open(before: State, mt: Seq<Seq<char>>, after: State, fx: Seq<Effect>)
    requires
        updated(before, mt, Message::Done, after, fx),
        before.tool_buf@.len() > 0,
    ensures
        after.sending == before.sending,
        after.tool_buf@.len() == 0,
        after.messages@.last().tool_calls matches Some(v) && call_views(v@) == call_views(before.tool_buf@),
        fx.len() >= 2 && fx.last() is RunTools,
{
}

/// With the voice off, a reply queues nothing for it.
pub proof fn a_muted_reply_queues_nothing(
    before: State,
    mt: Seq<Seq<char>>,
    t: String,
    after: State,
    fx: Seq<Effect>,
)
    requires
        updated(before, mt, Message::Delta(t), after, fx),
        !before.voice,
    ensures
        texts(after.speech_queue@) == texts(before.speech_queue@) || (!before.synthesizing && texts(
            after.speech_queue@,
        ) == texts(before.speech_queue@).drop_first()),
        after.speech_buf@ == before.speech_buf@,
{
}

/// Turning the voice off silences it: nothing is left waiting to be said.
pub proof fn muting_drops_what_waits(before: State, mt: Seq<Seq<char>>, after: State, fx: Seq<Effect>)
    requires
        updated(before, mt, Message::ToggleVoice, after, fx),
        before.voice,
    ensures
        !after.voice,
        after.speech_buf@.len() == 0 && after.speech_queue@.len() == 0,
        fx.len() == 1 && fx[0] is Hush,
{
}

/// Another voice never reaches the model, however it phrases itself: what
/// it says can only land in the composer.
pub proof fn a_stranger_never_auto_sends(
    before: State,
    mt: Seq<Seq<char>>,
    text: Result<String, String>,
    follow_up: bool,
    after: State,
    fx: Seq<Effect>,
)
    requires
        updated(before, mt, Message::Heard { text, mine: false, follow_up }, after, fx),
    ensures
        after.messages == before.messages,
        after.sending == before.sending,
        fx.len() == 0,
{
}

/// Speech not aimed at the assistant (unnamed, outside the follow-up window)
/// is parked after what is already typed, never in place of it.
pub proof fn unaimed_speech_is_parked(
    before: State,
    mt: Seq<Seq<char>>,
    t: String,
    mine: bool,
    after: State,
    fx: Seq<Effect>,
)
    requires
        updated(before, mt, Message::Heard { text: Ok(t), mine, follow_up: false }, after, fx),
        !blank(t@),
        !is_ghost_caption(ghost_key(t@)),
        !mine || addressed_spec(t@) is None,
    ensures
        after.messages == before.messages,
        fx.len() == 0,
        before.draft@.is_prefix_of(after.draft@),
        t@.is_suffix_of(after.draft@),
{
    let base = if blank(before.draft@) { before.draft@ } else { before.draft@.push(' ') };
    assert(after.draft@ == base + t@);
    assert(after.draft@.take(before.draft@.len() as int) =~= before.draft@);
    assert(after.draft@.skip(base.len() as int) =~= t@);
}

proof fn lemma_configured_all(c: Seq<ProviderEntry>)
    ensures
        forall|k: int| 0 <= k < configured_spec(c).len() ==> (#[trigger] configured_spec(c)[k]).configured,
    decreases c.len(),
{
    if c.len() > 0 {
        let d = c.drop_last();
        lemma_configured_all(d);
        if c.last().configured {
            assert forall|k: int| 0 <= k < configured_spec(c).len() implies (#[trigger] configured_spec(c)[k]).configured by {
                if k < configured_spec(d).len() {
                    assert(configured_spec(c)[k] == configured_spec(d)[k]);
                }
            }
        }
    }
}

/// Only providers that can answer are offered.
pub proof fn only_configured_providers_are_offered(
    before: State,
    mt: Seq<Seq<char>>,
    c: Vec<ProviderEntry>,
    after: State,
    fx: Seq<Effect>,
)
    requires
        updated(before, mt, Message::CatalogLoaded(Ok(c)), after, fx),
    ensures
        forall|k: int| 0 <= k < after.catalog@.len() ==> (#[trigger] after.catalog@[k]).configured,
{
    lemma_configured_all(c@);
}

/// A new provider keeps the picked model only when it offers that model.
pub proof fn a_switch_keeps_only_an_offered_model(
    before: State,
    mt: Seq<Seq<char>>,
    v: String,
    after: State,
    fx: Seq<Effect>,
)
    requires
        updated(before, mt, Message::ProviderChanged(v), after, fx),
    ensures
        after.provider@ == v@,
        keeps_model(before.catalog@, v@, before.model@) ==> after.model@ == before.model@,
        !keeps_model(before.catalog@, v@, before.model@) ==> after.model@.len() == 0,
{
}

} // verus!
