//! Chat against the platform's model proxy: one thread, kept in memory, the
//! whole history sent with each turn and the reply streamed back.
use vstd::prelude::*;
use crate::assistant::{non_empty, non_empty_spec};
use crate::providers::{choose_provider, keeps_model, ProviderEntry};
use crate::text::{chars_of, push_str, string_of, trim, trim_str};

verus! {

/// One turn of the thread.
#[derive(Debug)]
pub struct ChatMessage {
    pub role: String,
    pub content: String,
}

/// One piece of a streamed reply.
#[derive(Debug)]
pub enum Chunk {
    Delta(String),
    Reasoning(String),
    /// A tool call; this screen offers no tools, so none is expected.
    ToolCall,
    Done,
    Failed(String),
}

/// One chat thread.
#[derive(Debug)]
pub struct State {
    pub messages: Vec<ChatMessage>,
    /// The model's reasoning per message, beside `messages`: empty but for the
    /// assistant turns of a reasoning model. Shown, never sent back.
    pub reasoning: Vec<String>,
    /// The messages whose reasoning the user has opened; none twice.
    pub reasoning_open: Vec<usize>,
    pub draft: String,
    /// Provider and model for this thread; empty for the server's default.
    pub provider: String,
    pub model: String,
    pub catalog: Vec<ProviderEntry>,
    pub sending: bool,
    /// An assistant turn is open and collecting pieces of the reply.
    pub streaming: bool,
    pub error: Option<String>,
    /// Context sent ahead of the thread and never shown in it.
    pub system: Option<String>,
    /// The name of the thread's transcript on screen.
    pub scroll: String,
}

/// What the thread is told.
#[derive(Debug)]
pub enum Message {
    DraftChanged(String),
    ProviderChanged(String),
    ModelChanged(String),
    /// Back to the server's default provider and model.
    UseDefaults,
    CatalogLoaded(Result<Vec<ProviderEntry>, String>),
    Send,
    Chunk(Chunk),
    /// Show or hide the reasoning of one message.
    ToggleReasoning(usize),
    LinkClicked(String),
    Clear,
    DismissError,
}

/// What the thread asks of the program around it.
#[derive(Debug)]
pub enum Effect {
    Nothing,
    /// Scroll the transcript to its end.
    ScrollToEnd,
    /// Stream a reply to this history, scrolling to the end as it starts.
    Send { messages: Vec<ChatMessage>, model: Option<String>, provider: Option<String> },
    OpenLink(String),
}

/// The name a plain thread's transcript goes by.
pub const TRANSCRIPT: &'static str = "chat-transcript";

/// A message as role and content.
pub open spec fn message_view(m: ChatMessage) -> (Seq<char>, Seq<char>) {
    (m.role@, m.content@)
}

pub open spec fn message_views(s: Seq<ChatMessage>) -> Seq<(Seq<char>, Seq<char>)> {
    s.map_values(|m: ChatMessage| message_view(m))
}

/// What is sent: the context first, when there is one, then the turns.
pub open spec fn wire_spec(system: Option<String>, messages: Seq<ChatMessage>) -> Seq<(Seq<char>, Seq<char>)> {
    match system {
        Some(c) => seq![("system"@, c@)] + message_views(messages),
        None => message_views(messages),
    }
}

impl State {
    /// The thread's shape: one reasoning slot per message, no message opened
    /// twice, and a turn to add to while one is streaming.
    pub open spec fn wf(&self) -> bool {
        &&& self.reasoning@.len() == self.messages@.len()
        &&& self.reasoning_open@.no_duplicates()
        &&& self.streaming ==> self.messages@.len() > 0
    }

    /// An empty thread on the server's default provider and model.
    pub fn new() -> (r: State)
        ensures
            r.wf(),
            r.messages@.len() == 0 && r.draft@.len() == 0,
            r.provider@.len() == 0 && r.model@.len() == 0,
            !r.sending && !r.streaming && r.error is None && r.system is None,
            r.scroll@ == TRANSCRIPT@,
    {
        State {
            messages: Vec::new(),
            reasoning: Vec::new(),
            reasoning_open: Vec::new(),
            draft: String::new(),
            provider: String::new(),
            model: String::new(),
            catalog: Vec::new(),
            sending: false,
            streaming: false,
            error: None,
            system: None,
            scroll: TRANSCRIPT.to_owned(),
        }
    }

    /// The plain screen's thread, on the provider and model it kept.
    pub fn with_defaults(provider: String, model: String) -> (r: State)
        ensures
            r.wf(),
            r.messages@.len() == 0,
            r.provider == provider && r.model == model,
            !r.sending && !r.streaming && r.system is None,
            r.scroll@ == TRANSCRIPT@,
    {
        let mut s = State::new();
        s.provider = provider;
        s.model = model;
        s
    }

    /// A thread that belongs to something else on screen, named by `key`.
    pub fn scoped(key: &str) -> (r: State)
        ensures
            r.wf(),
            r.messages@.len() == 0,
            !r.sending && !r.streaming && r.system is None,
            r.scroll@ == "chat-transcript:"@ + key@,
    {
        let mut s = State::new();
        let mut v: Vec<char> = Vec::new();
        push_str(&mut v, "chat-transcript:");
        push_str(&mut v, key);
        s.scroll = string_of(&v);
        s
    }

    /// Replace the thread with a saved one (empty for a fresh one); the draft
    /// stays. Reasoning that does not line up with the messages is dropped.
    pub fn load_thread(&mut self, messages: Vec<ChatMessage>, reasoning: Vec<String>)
        requires
            old(self).wf(),
        ensures
            final(self).wf(),
            final(self).messages == messages,
            reasoning@.len() == messages@.len() ==> final(self).reasoning == reasoning,
            reasoning@.len() != messages@.len() ==> forall|i: int|
                0 <= i < messages@.len() ==> (#[trigger] final(self).reasoning@[i])@.len() == 0,
            final(self).reasoning_open@.len() == 0,
            !final(self).streaming && final(self).error is None,
            final(self).draft == old(self).draft && final(self).sending == old(self).sending,
            final(self).provider == old(self).provider && final(self).model == old(self).model,
            final(self).system == old(self).system && final(self).catalog == old(self).catalog,
    {
        if reasoning.len() == messages.len() {
            self.reasoning = reasoning;
        } else {
            let mut blank: Vec<String> = Vec::new();
            let mut i: usize = 0;
            while i < messages.len()
                invariant
                    i <= messages@.len(),
                    blank@.len() == i,
                    forall|j: int| 0 <= j < i ==> (#[trigger] blank@[j])@.len() == 0,
                decreases messages@.len() - i,
            {
                blank.push(String::new());
                i = i + 1;
            }
            self.reasoning = blank;
        }
        self.messages = messages;
        self.reasoning_open = Vec::new();
        self.streaming = false;
        self.error = None;
    }

    fn push_turn(&mut self, role: &str, content: String)
        requires
            old(self).wf(),
        ensures
            final(self).wf(),
            final(self).messages@.len() == old(self).messages@.len() + 1,
            final(self).messages@.drop_last() == old(self).messages@,
            final(self).messages@.last().role@ == role@,
            final(self).messages@.last().content == content,
            final(self).reasoning@.drop_last() == old(self).reasoning@,
            final(self).reasoning@.last()@.len() == 0,
            *final(self) == (State {
                messages: final(self).messages,
                reasoning: final(self).reasoning,
                ..*old(self)
            }),
    {
        self.reasoning.push(String::new());
        self.messages.push(ChatMessage { role: role.to_owned(), content });
        assert(self.messages@.drop_last() =~= old(self).messages@);
        assert(self.reasoning@.drop_last() =~= old(self).reasoning@);
    }

    /// Open an assistant turn for the reply, unless one is open already.
    fn open_turn(&mut self)
        requires
            old(self).wf(),
        ensures
            final(self).wf(),
            final(self).streaming,
            old(self).streaming ==> *final(self) == *old(self),
            !old(self).streaming ==> {
                &&& final(self).messages@.drop_last() == old(self).messages@
                &&& final(self).messages@.last().role@ == "assistant"@
                &&& final(self).messages@.last().content@.len() == 0
                &&& final(self).reasoning@.drop_last() == old(self).reasoning@
                &&& final(self).reasoning@.last()@.len() == 0
                &&& *final(self) == (State {
                    messages: final(self).messages,
                    reasoning: final(self).reasoning,
                    streaming: true,
                    ..*old(self)
                })
            },
    {
        if !self.streaming {
            self.push_turn("assistant", String::new());
            self.streaming = true;
        }
    }

    /// Add a piece of the reply to the turn in flight, opening one for the first.
    pub fn push_delta(&mut self, text: &str)
        requires
            old(self).wf(),
        ensures
            final(self).wf(),
            final(self).streaming,
            delta_added(*old(self), *final(self), text@),
    {
        self.open_turn();
        let ghost opened = *self;
        let mut m = self.messages.pop().unwrap();
        let mut v = chars_of(m.content.as_str());
        push_str(&mut v, text);
        m.content = string_of(&v);
        self.messages.push(m);
        assert(self.messages@.drop_last() =~= opened.messages@.drop_last());
    }

    /// Add a piece of reasoning to the turn in flight, opening one for the first:
    /// a reasoning model thinks before its first word.
    pub fn push_reasoning(&mut self, text: &str)
        requires
            old(self).wf(),
        ensures
            final(self).wf(),
            final(self).streaming,
            reasoning_added(*old(self), *final(self), text@),
    {
        self.open_turn();
        let ghost opened = *self;
        let r = self.reasoning.pop().unwrap();
        let mut v = chars_of(r.as_str());
        push_str(&mut v, text);
        self.reasoning.push(string_of(&v));
        assert(self.reasoning@.drop_last() =~= opened.reasoning@.drop_last());
    }

    /// Whether message `idx` is the streaming turn whose answer has not begun,
    /// whose reasoning the view keeps open.
    pub fn reasoning_live(&self, idx: usize) -> (r: bool)
        ensures
            r == (self.streaming && idx + 1 == self.messages@.len()
                && self.messages@[idx as int].content@.len() == 0),
    {
        if !self.streaming || idx >= self.messages.len() || idx != self.messages.len() - 1 {
            return false;
        }
        chars_of(self.messages[idx].content.as_str()).len() == 0
    }

    /// The history as sent: the context first, then the visible turns.
    pub fn wire_messages(&self) -> (r: Vec<ChatMessage>)
        ensures
            message_views(r@) == wire_spec(self.system, self.messages@),
    {
        let mut out: Vec<ChatMessage> = Vec::new();
        match &self.system {
            Some(c) => {
                out.push(ChatMessage { role: "system".to_owned(), content: c.clone() });
            },
            None => {},
        }
        let ghost head = message_views(out@);
        let mut i: usize = 0;
        while i < self.messages.len()
            invariant
                i <= self.messages@.len(),
                message_views(out@) == head + message_views(self.messages@.take(i as int)),
            decreases self.messages@.len() - i,
        {
            let ghost prev = out@;
            let m = &self.messages[i];
            out.push(ChatMessage { role: m.role.clone(), content: m.content.clone() });
            proof {
                assert(message_views(out@) =~= message_views(prev).push(message_view(self.messages@[i as int])));
                assert(message_views(self.messages@.take(i + 1)) =~= message_views(
                    self.messages@.take(i as int),
                ).push(message_view(self.messages@[i as int])));
            }
            i = i + 1;
        }
        assert(self.messages@.take(i as int) =~= self.messages@);
        proof {
            if self.system is Some {
                assert(head =~= seq![("system"@, self.system->0@)]);
            } else {
                assert(head =~= Seq::<(Seq<char>, Seq<char>)>::empty());
            }
        }
        out
    }

    /// The ids of the providers in the catalog.
    pub fn provider_ids(&self) -> (r: Vec<String>)
        ensures
            crate::text::texts(r@) == crate::providers::ids_of(self.catalog@),
    {
        crate::providers::provider_ids(&self.catalog)
    }

    /// The models the chosen provider offers; every provider's when none is chosen.
    pub fn model_options(&self) -> (r: Vec<String>)
        ensures
            crate::text::texts(r@) == crate::providers::model_options_spec(self.catalog@, self.provider@),
    {
        crate::providers::model_options(&self.catalog, self.provider.as_str())
    }

    /// Open or close the reasoning of message `idx`.
    fn toggle_reasoning(&mut self, idx: usize)
        requires
            old(self).wf(),
        ensures
            final(self).wf(),
            toggled_open(old(self).reasoning_open@, final(self).reasoning_open@, idx),
            *final(self) == (State { reasoning_open: final(self).reasoning_open, ..*old(self) }),
    {
        let mut i: usize = 0;
        while i < self.reasoning_open.len()
            invariant
                self.wf(),
                i <= self.reasoning_open@.len(),
                forall|j: int| 0 <= j < i ==> self.reasoning_open@[j] != idx,
                *self == *old(self),
            decreases self.reasoning_open@.len() - i,
        {
            if self.reasoning_open[i] == idx {
                let ghost before = self.reasoning_open@;
                self.reasoning_open.remove(i);
                proof {
                    let after = self.reasoning_open@;
                    assert(after =~= before.remove(i as int));
                    assert(before.contains(idx)) by {
                        assert(before[i as int] == idx);
                    }
                    assert forall|j: int, k: int| 0 <= j < after.len() && 0 <= k < after.len() && j != k
                        implies after[j] != after[k] by {
                        let jj = if j < i { j } else { j + 1 };
                        let kk = if k < i { k } else { k + 1 };
                        assert(after[j] == before[jj]);
                        assert(after[k] == before[kk]);
                    }
                    assert forall|x: usize| #[trigger] after.contains(x) == (if x == idx {
                        !before.contains(idx)
                    } else {
                        before.contains(x)
                    }) by {
                        if after.contains(x) {
                            let w = choose|w: int| 0 <= w < after.len() && after[w] == x;
                            let ww = if w < i { w } else { w + 1 };
                            assert(before[ww] == x);
                            assert(ww != i);
                        }
                        if x != idx && before.contains(x) {
                            let w = choose|w: int| 0 <= w < before.len() && before[w] == x;
                            assert(w != i);
                            let ww = if w < i { w } else { w - 1 };
                            assert(after[ww] == x);
                        }
                    }
                }
                return;
            }
            i = i + 1;
        }
        let ghost before = self.reasoning_open@;
        self.reasoning_open.push(idx);
        proof {
            let after = self.reasoning_open@;
            assert(!before.contains(idx));
            assert forall|x: usize| #[trigger] after.contains(x) == (if x == idx {
                !before.contains(idx)
            } else {
                before.contains(x)
            }) by {
                if before.contains(x) {
                    let w = choose|w: int| 0 <= w < before.len() && before[w] == x;
                    assert(after[w] == x);
                }
                if x == idx {
                    assert(after[before.len() as int] == x);
                }
                if after.contains(x) {
                    let w = choose|w: int| 0 <= w < after.len() && after[w] == x;
                    if w < before.len() {
                        assert(before[w] == x);
                    }
                }
            }
            assert forall|j: int, k: int| 0 <= j < after.len() && 0 <= k < after.len() && j != k
                implies after[j] != after[k] by {
                if j < before.len() && k < before.len() {
                    assert(after[j] == before[j] && after[k] == before[k]);
                } else if j < before.len() {
                    assert(after[j] == before[j]);
                } else if k < before.len() {
                    assert(after[k] == before[k]);
                }
            }
        }
    }

    /// Take one message and say what should happen next.
    pub fn update(&mut self, msg: Message) -> (e: Effect)
        requires
            old(self).wf(),
        ensures
            final(self).wf(),
            updated(*old(self), msg, *final(self), e),
    {
        match msg {
            Message::DraftChanged(v) => {
                self.draft = v;
                Effect::Nothing
            },
            Message::ProviderChanged(v) => {
                choose_provider(&self.catalog, &mut self.provider, &mut self.model, v);
                Effect::Nothing
            },
            Message::ModelChanged(v) => {
                self.model = v;
                Effect::Nothing
            },
            Message::UseDefaults => {
                self.provider = String::new();
                self.model = String::new();
                Effect::Nothing
            },
            Message::CatalogLoaded(Ok(providers)) => {
                self.catalog = providers;
                Effect::Nothing
            },
            Message::CatalogLoaded(Err(_)) => Effect::Nothing,
            Message::Send => {
                let prompt = trim_str(self.draft.as_str());
                if chars_of(prompt.as_str()).len() == 0 || self.sending {
                    return Effect::Nothing;
                }
                self.push_turn("user", prompt);
                self.draft = String::new();
                self.sending = true;
                let messages = self.wire_messages();
                let model = non_empty(self.model.as_str());
                let provider = non_empty(self.provider.as_str());
                Effect::Send { messages, model, provider }
            },
            Message::Chunk(Chunk::Delta(text)) => {
                self.push_delta(text.as_str());
                Effect::ScrollToEnd
            },
            Message::Chunk(Chunk::Reasoning(text)) => {
                self.push_reasoning(text.as_str());
                Effect::ScrollToEnd
            },
            Message::ToggleReasoning(idx) => {
                self.toggle_reasoning(idx);
                Effect::Nothing
            },
            Message::Chunk(Chunk::ToolCall) => Effect::Nothing,
            Message::Chunk(Chunk::Done) => {
                self.sending = false;
                self.streaming = false;
                Effect::ScrollToEnd
            },
            Message::Chunk(Chunk::Failed(m)) => {
                self.sending = false;
                self.streaming = false;
                self.error = Some(m);
                Effect::Nothing
            },
            Message::Clear => {
                self.messages = Vec::new();
                self.reasoning = Vec::new();
                self.reasoning_open = Vec::new();
                self.streaming = false;
                self.error = None;
                Effect::Nothing
            },
            Message::LinkClicked(url) => {
                if crate::agenda_chat::opens_link(url.as_str()) {
                    Effect::OpenLink(url)
                } else {
                    Effect::Nothing
                }
            },
            Message::DismissError => {
                self.error = None;
                Effect::Nothing
            },
        }
    }
}

/// `after` is `before` with `text` added to the reply in flight, a turn
/// opened for it first where none was.
pub open spec fn delta_added(before: State, after: State, text: Seq<char>) -> bool {
    let base = if before.streaming {
        before.messages@
    } else {
        before.messages@.push(ChatMessage { role: after.messages@.last().role, content: after.messages@.last().content })
    };
    let prior = if before.streaming {
        before.messages@.last().content@
    } else {
        Seq::empty()
    };
    &&& after.messages@.len() == base.len()
    &&& after.messages@.drop_last() == base.drop_last()
    &&& after.messages@.last().role@ == (if before.streaming {
        before.messages@.last().role@
    } else {
        "assistant"@
    })
    &&& after.messages@.last().content@ == prior + text
    &&& after.reasoning@.len() == after.messages@.len()
    &&& before.streaming ==> after.reasoning == before.reasoning
    &&& !before.streaming ==> after.reasoning@.drop_last() == before.reasoning@
        && after.reasoning@.last()@.len() == 0
    &&& after == (State {
        messages: after.messages,
        reasoning: after.reasoning,
        streaming: true,
        ..before
    })
}

/// `after` is `before` with `text` added to the reasoning of the turn in
/// flight, a turn opened for it first where none was.
pub open spec fn reasoning_added(before: State, after: State, text: Seq<char>) -> bool {
    let prior = if before.streaming {
        before.reasoning@.last()@
    } else {
        Seq::empty()
    };
    &&& before.streaming ==> after.messages == before.messages
    &&& !before.streaming ==> after.messages@.drop_last() == before.messages@
        && after.messages@.last().role@ == "assistant"@ && after.messages@.last().content@.len() == 0
    &&& after.reasoning@.len() == after.messages@.len()
    &&& after.reasoning@.drop_last() == (if before.streaming {
        before.reasoning@.drop_last()
    } else {
        before.reasoning@
    })
    &&& after.reasoning@.last()@ == prior + text
    &&& after == (State {
        messages: after.messages,
        reasoning: after.reasoning,
        streaming: true,
        ..before
    })
}

/// The open set after toggling `idx`: it flips, and nothing else does.
pub open spec fn toggled_open(before: Seq<usize>, after: Seq<usize>, idx: usize) -> bool {
    forall|x: usize| #[trigger] after.contains(x) == if x == idx {
        !before.contains(idx)
    } else {
        before.contains(x)
    }
}

/// The contract of [`State::update`], message by message.
pub open spec fn updated(before: State, msg: Message, after: State, e: Effect) -> bool {
    match msg {
        Message::DraftChanged(v) => e is Nothing && after == (State { draft: v, ..before }),
        Message::ProviderChanged(v) => {
            &&& e is Nothing
            &&& after.provider@ == v@
            &&& after.model@ == if keeps_model(before.catalog@, v@, before.model@) {
                before.model@
            } else {
                Seq::empty()
            }
            &&& after == (State { provider: after.provider, model: after.model, ..before })
        },
        Message::ModelChanged(v) => e is Nothing && after == (State { model: v, ..before }),
        Message::UseDefaults => {
            &&& e is Nothing
            &&& after.provider@.len() == 0 && after.model@.len() == 0
            &&& after == (State { provider: after.provider, model: after.model, ..before })
        },
        Message::CatalogLoaded(Ok(c)) => e is Nothing && after == (State { catalog: c, ..before }),
        Message::CatalogLoaded(Err(_)) => e is Nothing && after == before,
        Message::Send => if trim(before.draft@).len() == 0 || before.sending {
            e is Nothing && after == before
        } else {
            &&& after.messages@.drop_last() == before.messages@
            &&& after.messages@.last().role@ == "user"@
            &&& after.messages@.last().content@ == trim(before.draft@)
            &&& after.reasoning@.drop_last() == before.reasoning@
            &&& after.reasoning@.last()@.len() == 0
            &&& after.draft@.len() == 0
            &&& after == (State {
                messages: after.messages,
                reasoning: after.reasoning,
                draft: after.draft,
                sending: true,
                ..before
            })
            &&& e matches Effect::Send { messages, model, provider }
                && message_views(messages@) == wire_spec(before.system, after.messages@)
                && match non_empty_spec(before.model@) {
                Some(t) => model is Some && model->0@ == t,
                None => model is None,
            } && match non_empty_spec(before.provider@) {
                Some(t) => provider is Some && provider->0@ == t,
                None => provider is None,
            }
        },
        Message::Chunk(Chunk::Delta(text)) => e is ScrollToEnd && delta_added(before, after, text@),
        Message::Chunk(Chunk::Reasoning(text)) => e is ScrollToEnd && reasoning_added(
            before,
            after,
            text@,
        ),
        Message::ToggleReasoning(idx) => {
            &&& e is Nothing
            &&& toggled_open(before.reasoning_open@, after.reasoning_open@, idx)
            &&& after == (State { reasoning_open: after.reasoning_open, ..before })
        },
        Message::Chunk(Chunk::ToolCall) => e is Nothing && after == before,
        Message::Chunk(Chunk::Done) => e is ScrollToEnd && after == (State {
            sending: false,
            streaming: false,
            ..before
        }),
        Message::Chunk(Chunk::Failed(m)) => e is Nothing && after == (State {
            sending: false,
            streaming: false,
            error: Some(m),
            ..before
        }),
        Message::Clear => {
            &&& e is Nothing
            &&& after.messages@.len() == 0 && after.reasoning@.len() == 0
            &&& after.reasoning_open@.len() == 0
            &&& after == (State {
                messages: after.messages,
                reasoning: after.reasoning,
                reasoning_open: after.reasoning_open,
                streaming: false,
                error: None,
                ..before
            })
        },
        Message::LinkClicked(url) => after == before && if ("http://"@.is_prefix_of(url@)
            || "https://"@.is_prefix_of(url@)) {
            e == Effect::OpenLink(url)
        } else {
            e is Nothing
        },
        Message::DismissError => e is Nothing && after == (State { error: None, ..before }),
    }
}


/// Toggling the same message's reasoning twice puts the set of open ones back
/// as it was.
pub proof fn toggling_twice_restores(a: Seq<usize>, b: Seq<usize>, c: Seq<usize>, idx: usize)
    requires
        toggled_open(a, b, idx),
        toggled_open(b, c, idx),
    ensures
        forall|x: usize| #[trigger] c.contains(x) == a.contains(x),
{
    assert forall|x: usize| #[trigger] c.contains(x) == a.contains(x) by {
        assert(c.contains(x) == if x == idx { !b.contains(idx) } else { b.contains(x) });
        assert(b.contains(x) == if x == idx { !a.contains(idx) } else { a.contains(x) });
        assert(b.contains(idx) == !a.contains(idx));
    }
}

} // verus!
