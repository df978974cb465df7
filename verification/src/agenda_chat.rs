//! The planning chat beside the agenda: the thread picker, the transcript,
//! and the planning form the assistant asks the user to fill in.
use vstd::prelude::*;
use crate::json::{Json, JsonV};
use crate::text::{chars_of, first_n, is_blank, push_all, push_str, str_eq, string_of, take_chars, trim};

verus! {

/// A thread in the picker. Two options are the same option when they are
/// the same thread, whatever their labels say.
#[derive(Debug, Clone)]
pub struct ThreadOption {
    pub id: i64,
    pub label: String,
}

impl PartialEq for ThreadOption {
    fn eq(&self, other: &Self) -> (r: bool) {
        self.id == other.id
    }
}

impl vstd::std_specs::cmp::PartialEqSpecImpl for ThreadOption {
    open spec fn obeys_eq_spec() -> bool {
        true
    }

    open spec fn eq_spec(&self, other: &Self) -> bool {
        self.id == other.id
    }
}

/// A thread as the server lists it.
#[derive(Debug, Clone)]
pub struct ThreadSummary {
    pub id: i64,
    pub title: String,
    pub preview: String,
}

/// One message of the transcript.
#[derive(Debug, Clone)]
pub struct ChatMessage {
    pub role: String,
    pub content: String,
}

/// One field of a planning form.
#[derive(Debug)]
pub struct FormField {
    pub id: String,
    pub required: bool,
    pub default: Option<Json>,
}

/// A planning form the assistant asked for.
#[derive(Debug)]
pub struct PlanningForm {
    pub domain: Option<String>,
    pub fields: Vec<FormField>,
}

/// The chat beside the agenda.
#[derive(Debug)]
pub struct State {
    pub open: bool,
    pub project: Option<i64>,
    pub threads: Vec<ThreadSummary>,
    pub thread_id: Option<i64>,
    pub messages: Vec<ChatMessage>,
    pub form: Option<PlanningForm>,
    /// The form's answers by field id; the first entry for an id is the one read.
    pub answers: Vec<(String, Json)>,
    pub draft: String,
    pub sending: bool,
    pub loading: bool,
    pub error: Option<String>,
    pub notice: Option<String>,
    /// The actions the assistant proposed and the user has not yet decided on.
    pub pending: Vec<Json>,
    /// How much of the model's context the thread uses, as the server reports it.
    pub usage: Option<Json>,
}

/// A thread as the server returns it, from every call that touches one.
#[derive(Debug)]
pub struct ChatThread {
    pub thread_id: Option<i64>,
    pub messages: Vec<ChatMessage>,
    pub pending: Vec<Json>,
    pub form: Option<PlanningForm>,
    pub usage: Option<Json>,
}

/// What applying (or dismissing) proposals reports.
#[derive(Debug)]
pub struct ApplyResult {
    pub applied: Vec<String>,
    pub skipped: Vec<String>,
    pub guidance: Vec<String>,
    /// Whether the assistant went on with a turn of its own, which already
    /// tells the user what changed.
    pub continued: bool,
}

/// What the chat is told.
#[derive(Debug)]
pub enum Message {
    /// "View logs" on an error banner; the screen around the chat handles it.
    TraceLogs(String),
    Open,
    Close,
    /// The project changed or the pane opened: reload the threads and the newest one.
    Reload,
    ThreadsLoaded(Result<Vec<ThreadSummary>, String>),
    SelectThread(i64),
    NewThread,
    ThreadCreated(Result<i64, String>),
    Loaded(Result<ChatThread, String>),
    DraftChanged(String),
    Send,
    Retry,
    /// A turn came back: the same shape from send, retry and form submit.
    Turned(Result<ChatThread, String>),
    SetText(String, String),
    SetBool(String, bool),
    Pick(String, String),
    ToggleOption(String, String),
    SubmitForm,
    ApplyActions,
    DismissActions,
    Applied(Result<ApplyResult, String>),
    LinkClicked(String),
    DismissError,
}

/// What the chat asks of the program around it after a message.
#[derive(Debug)]
pub enum Effect {
    Nothing,
    /// Fetch the project's threads, and the given thread (the newest when none).
    Reload { project: i64, thread: Option<i64> },
    LoadThread { project: i64, thread: i64 },
    NewThread { project: i64 },
    /// Scroll the transcript to its end.
    ScrollToEnd,
    /// Send a turn; the transcript scrolls to its end as it goes.
    Send { project: i64, text: String, thread: Option<i64> },
    /// Ask again from the user turn at `index`.
    Retry { project: i64, thread: i64, index: usize },
    SubmitForm { project: i64, domain: String, answers: Vec<(String, Json)>, thread: Option<i64> },
    Apply { project: i64, actions: Vec<Json>, thread: Option<i64>, auto_continue: bool },
    OpenLink(String),
}

/// The answers as values, in order.
pub open spec fn answer_views(s: Seq<(String, Json)>) -> Seq<(Seq<char>, JsonV)> {
    s.map_values(|p: (String, Json)| (p.0@, p.1@))
}

/// Whether `k` is where the last user turn of the transcript stands.
pub open spec fn is_last_user(s: Seq<ChatMessage>, k: int) -> bool {
    &&& 0 <= k < s.len()
    &&& s[k].role@ == "user"@
    &&& forall|j: int| k < j < s.len() ==> (#[trigger] s[j]).role@ != "user"@
}

/// Whether the transcript has a user turn at all.
pub open spec fn has_user_turn(s: Seq<ChatMessage>) -> bool {
    exists|j: int| 0 <= j < s.len() && (#[trigger] s[j]).role@ == "user"@
}

/// `after` is `before` reloaded: with a project, the chat is loading and asks
/// for its threads and its thread; without one nothing happens.
pub open spec fn reloaded(before: State, after: State, e: Effect) -> bool {
    match before.project {
        None => e is Nothing && after == before,
        Some(p) => e == (Effect::Reload { project: p, thread: before.thread_id }) && after == (State {
            loading: true,
            ..before
        }),
    }
}

/// `after` is `before` with the server's copy of the thread taken in whole:
/// its transcript, its proposals and its form (answers seeded from the form),
/// and its id and usage where it gives them.
pub open spec fn absorbed(before: State, after: State, t: ChatThread) -> bool {
    &&& after.thread_id == (match t.thread_id {
        Some(id) => Some(id),
        None => before.thread_id,
    })
    &&& after.messages == t.messages
    &&& after.pending == t.pending
    &&& after.form == t.form
    &&& forall|k: Seq<char>| #[trigger] answer_of(after.answers@, k) == match t.form {
        None => None,
        Some(f) => seeded(f.fields@, k),
    }
    &&& after.usage == (match t.usage {
        Some(u) => Some(u),
        None => before.usage,
    })
    &&& after.open == before.open && after.project == before.project
    &&& after.threads == before.threads && after.draft == before.draft
    &&& after.error == before.error && after.notice == before.notice
}

/// `after` is `before` with one answer set, and nothing else changed.
pub open spec fn answer_set(before: State, after: State, id: Seq<char>, v: JsonV) -> bool {
    &&& forall|k: Seq<char>| #[trigger] answer_of(after.answers@, k) == if k == id {
        Some(v)
    } else {
        answer_of(before.answers@, k)
    }
    &&& after == (State { answers: after.answers, ..before })
}

/// The longest label the picker shows.
pub const MAX_LABEL: usize = 44;

/// `s` cut to `max` characters, with an ellipsis when anything was cut.
pub open spec fn ellipsize_spec(s: Seq<char>, max: nat) -> Seq<char> {
    if s.len() > max {
        s.take(max as int).push('\u{2026}')
    } else {
        s
    }
}

pub fn ellipsize(s: &str, max: usize) -> (r: String)
    ensures
        r@ == ellipsize_spec(s@, max as nat),
{
    let v = chars_of(s);
    let mut t = take_chars(&v, max);
    if t.len() < v.len() {
        t.push('\u{2026}');
    }
    string_of(&t)
}

/// What a thread is called in the picker: its title, unless that is blank
/// or the server's placeholder, in which case its preview (or the
/// placeholder itself when there is no preview), cut to [`MAX_LABEL`].
pub open spec fn label_of(t: ThreadSummary) -> Seq<char> {
    let name = if trim(t.title@).len() == 0 || t.title@ == "New chat"@ {
        if t.preview@.len() == 0 {
            "New chat"@
        } else {
            t.preview@
        }
    } else {
        t.title@
    };
    ellipsize_spec(name, MAX_LABEL as nat)
}

pub open spec fn option_views(s: Seq<ThreadOption>) -> Seq<(i64, Seq<char>)> {
    s.map_values(|o: ThreadOption| (o.id, o.label@))
}

/// Whether an answer counts as given: text that is not blank, a list with
/// something in it, or any other value but `null`.
pub open spec fn answered_spec(v: Option<JsonV>) -> bool {
    match v {
        Some(JsonV::Str(s)) => trim(s).len() > 0,
        Some(JsonV::Array(items)) => items.len() > 0,
        Some(JsonV::Null) => false,
        None => false,
        Some(_) => true,
    }
}

pub fn answered(v: Option<&Json>) -> (r: bool)
    ensures
        r == answered_spec(
            match v {
                Some(j) => Some(j@),
                None => None,
            },
        ),
{
    match v {
        Some(Json::Str(s)) => !is_blank(s.as_str()),
        Some(Json::Array(items)) => {
            proof {
                crate::json::lemma_view_array(*items);
            }
            items.len() > 0
        },
        Some(Json::Null) => false,
        None => false,
        Some(Json::Object(m)) => {
            proof {
                crate::json::lemma_view_object(*m);
            }
            true
        },
        Some(_) => true,
    }
}

/// The answer given for a field: the first entry with its id.
pub open spec fn answer_of(s: Seq<(String, Json)>, id: Seq<char>) -> Option<JsonV>
    decreases s.len(),
{
    if s.len() == 0 {
        None
    } else if s[0].0@ == id {
        Some(s[0].1@)
    } else {
        answer_of(s.drop_first(), id)
    }
}

/// Index of the first answer with this id, or the length.
fn answer_index(s: &Vec<(String, Json)>, id: &str) -> (r: usize)
    ensures
        r <= s@.len(),
        forall|j: int| 0 <= j < r ==> (#[trigger] s@[j]).0@ != id@,
        r == s@.len() || s@[r as int].0@ == id@,
{
    let mut i: usize = 0;
    while i < s.len()
        invariant
            i <= s@.len(),
            forall|j: int| 0 <= j < i ==> (#[trigger] s@[j]).0@ != id@,
        decreases s@.len() - i,
    {
        if str_eq(s[i].0.as_str(), id) {
            return i;
        }
        i = i + 1;
    }
    i
}

proof fn lemma_answer_of_at(s: Seq<(String, Json)>, id: Seq<char>, i: int)
    requires
        0 <= i <= s.len(),
        forall|j: int| 0 <= j < i ==> (#[trigger] s[j]).0@ != id,
        i == s.len() || s[i].0@ == id,
    ensures
        answer_of(s, id) == (if i == s.len() {
            None
        } else {
            Some(s[i].1@)
        }),
    decreases i,
{
    if i > 0 {
        let t = s.drop_first();
        assert forall|j: int| 0 <= j < i - 1 implies (#[trigger] t[j]).0@ != id by {
            assert(t[j] == s[j + 1]);
        }
        if i < s.len() {
            assert(t[i - 1] == s[i]);
        }
        lemma_answer_of_at(t, id, i - 1);
    }
}

proof fn lemma_answer_of_update(s: Seq<(String, Json)>, i: int, e: (String, Json), id: Seq<char>)
    requires
        0 <= i < s.len(),
        e.0@ == s[i].0@,
        forall|j: int| 0 <= j < i ==> (#[trigger] s[j]).0@ != s[i].0@,
    ensures
        answer_of(s.update(i, e), id) == (if id == s[i].0@ {
            Some(e.1@)
        } else {
            answer_of(s, id)
        }),
    decreases i,
{
    let t = s.drop_first();
    if i > 0 {
        assert(s.update(i, e).drop_first() =~= t.update(i - 1, e));
        assert(t[i - 1] == s[i]);
        assert forall|j: int| 0 <= j < i - 1 implies (#[trigger] t[j]).0@ != t[i - 1].0@ by {
            assert(t[j] == s[j + 1]);
        }
        lemma_answer_of_update(t, i - 1, e, id);
    } else {
        assert(s.update(i, e).drop_first() =~= t);
    }
}

proof fn lemma_answer_of_push(s: Seq<(String, Json)>, e: (String, Json), id: Seq<char>)
    requires
        forall|j: int| 0 <= j < s.len() ==> (#[trigger] s[j]).0@ != e.0@,
    ensures
        answer_of(s.push(e), id) == (if id == e.0@ {
            Some(e.1@)
        } else {
            answer_of(s, id)
        }),
    decreases s.len(),
{
    if s.len() > 0 {
        let t = s.drop_first();
        assert(s.push(e).drop_first() =~= t.push(e));
        assert(s.push(e)[0] == s[0]);
        assert(s[0].0@ != e.0@);
        assert forall|j: int| 0 <= j < t.len() implies (#[trigger] t[j]).0@ != e.0@ by {
            assert(t[j] == s[j + 1]);
        }
        lemma_answer_of_push(t, e, id);
        assert(answer_of(s.push(e), id) == (if s[0].0@ == id {
            Some(s[0].1@)
        } else {
            answer_of(t.push(e), id)
        }));
    } else {
        let one = s.push(e);
        assert(one[0] == e);
        assert(one.drop_first() =~= Seq::<(String, Json)>::empty());
        assert(answer_of(one.drop_first(), id) == None::<JsonV>);
        assert(answer_of(s, id) == None::<JsonV>);
    }
}

/// Set the answer for a field, replacing any earlier one.
pub fn set_answer(answers: &mut Vec<(String, Json)>, id: String, value: Json)
    ensures
        forall|k: Seq<char>| #[trigger] answer_of(final(answers)@, k) == if k == id@ {
            Some(value@)
        } else {
            answer_of(old(answers)@, k)
        },
{
    let i = answer_index(answers, id.as_str());
    let ghost before = answers@;
    proof {
        lemma_answer_of_at(before, id@, i as int);
    }
    let e = (id, value);
    if i == answers.len() {
        proof {
            assert forall|k: Seq<char>| #[trigger] answer_of(before.push(e), k) == (if k == e.0@ {
                Some(e.1@)
            } else {
                answer_of(before, k)
            }) by {
                lemma_answer_of_push(before, e, k);
            }
        }
        answers.push(e);
    } else {
        proof {
            assert forall|k: Seq<char>| #[trigger] answer_of(before.update(i as int, e), k) == (
            if k == before[i as int].0@ {
                Some(e.1@)
            } else {
                answer_of(before, k)
            }) by {
                lemma_answer_of_update(before, i as int, e, k);
            }
        }
        answers.set(i, e);
    }
}

/// The options of a multi-select after toggling one: removed where it was
/// (its first occurrence), added at the end where it was not.
pub open spec fn toggled(items: Seq<JsonV>, option: Seq<char>) -> Seq<JsonV> {
    match first_str(items, option) {
        Some(i) => items.remove(i),
        None => items.push(JsonV::Str(option)),
    }
}

/// Index of the first string item equal to `option`.
pub open spec fn first_str(items: Seq<JsonV>, option: Seq<char>) -> Option<int>
    decreases items.len(),
{
    if items.len() == 0 {
        None
    } else if items[0] == JsonV::Str(option) {
        Some(0)
    } else {
        match first_str(items.drop_first(), option) {
            Some(i) => Some(i + 1),
            None => None,
        }
    }
}

proof fn lemma_first_str_at(items: Seq<JsonV>, option: Seq<char>, i: int)
    requires
        0 <= i <= items.len(),
        forall|j: int| 0 <= j < i ==> #[trigger] items[j] != JsonV::Str(option),
        i == items.len() || items[i] == JsonV::Str(option),
    ensures
        first_str(items, option) == (if i == items.len() {
            None::<int>
        } else {
            Some(i)
        }),
    decreases i,
{
    if i > 0 {
        let t = items.drop_first();
        assert forall|j: int| 0 <= j < i - 1 implies #[trigger] t[j] != JsonV::Str(option) by {
            assert(t[j] == items[j + 1]);
        }
        if i < items.len() {
            assert(t[i - 1] == items[i]);
        }
        lemma_first_str_at(t, option, i - 1);
    }
}

/// The multi-select answer after toggling `option`: a field with no list
/// answer yet (or a non-list one) starts from an empty list.
pub open spec fn toggle_spec(current: Option<JsonV>, option: Seq<char>) -> JsonV {
    let items = match current {
        Some(JsonV::Array(items)) => items,
        _ => Seq::empty(),
    };
    JsonV::Array(toggled(items, option))
}

fn toggle_items(items: Vec<Json>, option: &str) -> (r: Vec<Json>)
    ensures
        crate::json::views(r@) == toggled(crate::json::views(items@), option@),
{
    proof {
        crate::json::lemma_views(items@);
    }
    let ghost iv = crate::json::views(items@);
    let mut i: usize = 0;
    while i < items.len()
        invariant
            iv == crate::json::views(items@),
            iv.len() == items@.len(),
            forall|k: int| 0 <= k < items@.len() ==> #[trigger] iv[k] == items@[k]@,
            i <= items@.len(),
            forall|j: int| 0 <= j < i ==> #[trigger] iv[j] != JsonV::Str(option@),
        decreases items@.len() - i,
    {
        let same = match &items[i] {
            Json::Str(s) => str_eq(s.as_str(), option),
            _ => false,
        };
        if same {
            proof {
                lemma_first_str_at(iv, option@, i as int);
            }
            let mut out = items;
            let ghost before = out@;
            out.remove(i);
            proof {
                crate::json::lemma_views(out@);
                assert(crate::json::views(out@) =~= iv.remove(i as int));
            }
            return out;
        }
        proof {
            match items@[i as int] {
                Json::Str(s) => {},
                Json::Array(a) => {
                    crate::json::lemma_view_array(a);
                },
                Json::Object(m) => {
                    crate::json::lemma_view_object(m);
                },
                _ => {},
            }
        }
        i = i + 1;
    }
    proof {
        lemma_first_str_at(iv, option@, i as int);
    }
    let mut out = items;
    let ghost before = out@;
    out.push(Json::Str(option.to_owned()));
    proof {
        crate::json::lemma_views(out@);
        assert(crate::json::views(out@) =~= iv.push(JsonV::Str(option@)));
    }
    out
}

impl State {
    /// A closed chat with nothing loaded.
    pub fn new() -> (r: State)
        ensures
            !r.open,
            r.project is None,
            r.thread_id is None,
            r.threads@.len() == 0,
            r.messages@.len() == 0,
            r.form is None,
            r.answers@.len() == 0,
            !r.sending && !r.loading,
    {
        State {
            open: false,
            project: None,
            threads: Vec::new(),
            thread_id: None,
            messages: Vec::new(),
            form: None,
            answers: Vec::new(),
            draft: String::new(),
            sending: false,
            loading: false,
            error: None,
            notice: None,
            pending: Vec::new(),
            usage: None,
        }
    }

    /// The threads as the picker lists them.
    pub fn options(&self) -> (r: Vec<ThreadOption>)
        ensures
            option_views(r@) == self.threads@.map_values(|t: ThreadSummary| (t.id, label_of(t))),
    {
        let mut out: Vec<ThreadOption> = Vec::new();
        let mut i: usize = 0;
        while i < self.threads.len()
            invariant
                i <= self.threads@.len(),
                option_views(out@) == self.threads@.take(i as int).map_values(
                    |t: ThreadSummary| (t.id, label_of(t)),
                ),
            decreases self.threads@.len() - i,
        {
            let t = &self.threads[i];
            let placeholder = is_blank(t.title.as_str()) || str_eq(t.title.as_str(), "New chat");
            let name: &str = if placeholder {
                if chars_of(t.preview.as_str()).len() == 0 {
                    "New chat"
                } else {
                    t.preview.as_str()
                }
            } else {
                t.title.as_str()
            };
            let o = ThreadOption { id: t.id, label: ellipsize(name, MAX_LABEL) };
            let ghost prev = out@;
            out.push(o);
            proof {
                assert(option_views(out@) =~= option_views(prev).push((o.id, o.label@)));
                assert(self.threads@.take(i + 1).map_values(|t: ThreadSummary| (t.id, label_of(t)))
                    =~= self.threads@.take(i as int).map_values(
                    |t: ThreadSummary| (t.id, label_of(t)),
                ).push((self.threads@[i as int].id, label_of(self.threads@[i as int]))));
            }
            i = i + 1;
        }
        assert(self.threads@.take(i as int) =~= self.threads@);
        out
    }

    /// The option of the thread that is open.
    pub fn selected(&self) -> (r: Option<ThreadOption>)
        ensures
            match self.thread_id {
                None => r is None,
                Some(id) => match r {
                    Some(o) => o.id == id && exists|i: int|
                        0 <= i < self.threads@.len() && self.threads@[i].id == id && o.label@
                            == label_of(self.threads@[i]) && forall|j: int|
                            0 <= j < i ==> (#[trigger] self.threads@[j]).id != id,
                    None => forall|j: int|
                        0 <= j < self.threads@.len() ==> (#[trigger] self.threads@[j]).id != id,
                },
            },
    {
        let id = match self.thread_id {
            Some(id) => id,
            None => {
                return None;
            },
        };
        let all = self.options();
        let ghost labelled = self.threads@.map_values(|t: ThreadSummary| (t.id, label_of(t)));
        assert(option_views(all@).len() == all@.len());
        assert(labelled.len() == self.threads@.len());
        let mut i: usize = 0;
        while i < all.len()
            invariant
                option_views(all@) == labelled,
                labelled == self.threads@.map_values(|t: ThreadSummary| (t.id, label_of(t))),
                all@.len() == self.threads@.len(),
                self.thread_id == Some(id),
                i <= all@.len(),
                forall|j: int| 0 <= j < i ==> (#[trigger] self.threads@[j]).id != id,
            decreases all@.len() - i,
        {
            assert(option_views(all@)[i as int] == (all@[i as int].id, all@[i as int].label@));
            assert(labelled[i as int] == (self.threads@[i as int].id, label_of(self.threads@[i as int])));
            if all[i].id == id {
                let o = all[i].clone_option();
                assert(o.label@ == label_of(self.threads@[i as int]));
                return Some(o);
            }
            i = i + 1;
        }
        None
    }

    /// Where the last user message sits in the transcript.
    pub fn last_user_index(&self) -> (r: Option<usize>)
        ensures
            match r {
                Some(k) => k < self.messages@.len() && self.messages@[k as int].role@ == "user"@
                    && forall|j: int|
                    k < j < self.messages@.len() ==> (#[trigger] self.messages@[j]).role@ != "user"@,
                None => forall|j: int|
                    0 <= j < self.messages@.len() ==> (#[trigger] self.messages@[j]).role@ != "user"@,
            },
    {
        let mut k: usize = self.messages.len();
        while k > 0
            invariant
                k <= self.messages@.len(),
                forall|j: int|
                    k <= j < self.messages@.len() ==> (#[trigger] self.messages@[j]).role@ != "user"@,
            decreases k,
        {
            if str_eq(self.messages[k - 1].role.as_str(), "user") {
                return Some(k - 1);
            }
            k = k - 1;
        }
        None
    }

    /// Whether every required field of the open form has an answer.
    pub fn form_ready(&self) -> (r: bool)
        ensures
            r == match self.form {
                None => false,
                Some(f) => forall|i: int|
                    0 <= i < f.fields@.len() && (#[trigger] f.fields@[i]).required ==> answered_spec(
                        answer_of(self.answers@, f.fields@[i].id@),
                    ),
            },
    {
        let form = match &self.form {
            Some(f) => f,
            None => {
                return false;
            },
        };
        let mut i: usize = 0;
        while i < form.fields.len()
            invariant
                self.form == Some(*form),
                i <= form.fields@.len(),
                forall|j: int|
                    0 <= j < i && (#[trigger] form.fields@[j]).required ==> answered_spec(
                        answer_of(self.answers@, form.fields@[j].id@),
                    ),
            decreases form.fields@.len() - i,
        {
            let f = &form.fields[i];
            if f.required && !answered(self.answer(f.id.as_str())) {
                return false;
            }
            i = i + 1;
        }
        true
    }

    /// The answer given for a field.
    pub fn answer(&self, id: &str) -> (r: Option<&Json>)
        ensures
            match r {
                Some(j) => answer_of(self.answers@, id@) == Some(j@),
                None => answer_of(self.answers@, id@) is None,
            },
    {
        let i = answer_index(&self.answers, id);
        proof {
            lemma_answer_of_at(self.answers@, id@, i as int);
        }
        if i < self.answers.len() {
            Some(&self.answers[i].1)
        } else {
            None
        }
    }

    /// Whether a multi-select field has this option picked.
    pub fn picked(&self, id: &str, option: &str) -> (r: bool)
        ensures
            r == match answer_of(self.answers@, id@) {
                Some(JsonV::Array(items)) => items.contains(JsonV::Str(option@)),
                _ => false,
            },
    {
        match self.answer(id) {
            Some(Json::Array(items)) => {
                proof {
                    crate::json::lemma_view_array(*items);
                    crate::json::lemma_views(items@);
                }
                let mut i: usize = 0;
                while i < items.len()
                    invariant
                        answer_of(self.answers@, id@) == Some(JsonV::Array(crate::json::views(items@))),
                        crate::json::views(items@).len() == items@.len(),
                        i <= items@.len(),
                        forall|k: int|
                            0 <= k < items@.len() ==> #[trigger] crate::json::views(items@)[k]
                                == items@[k]@,
                        forall|j: int| 0 <= j < i ==> crate::json::views(items@)[j] != JsonV::Str(option@),
                    decreases items@.len() - i,
                {
                    match &items[i] {
                        Json::Str(s) => {
                            if str_eq(s.as_str(), option) {
                                assert(crate::json::views(items@)[i as int] == JsonV::Str(option@));
                                return true;
                            }
                        },
                        Json::Array(a) => {
                            proof {
                                crate::json::lemma_view_array(*a);
                            }
                        },
                        Json::Object(m) => {
                            proof {
                                crate::json::lemma_view_object(*m);
                            }
                        },
                        _ => {},
                    }
                    i = i + 1;
                }
                assert(!crate::json::views(items@).contains(JsonV::Str(option@)));
                false
            },
            Some(Json::Object(m)) => {
                proof {
                    crate::json::lemma_view_object(*m);
                }
                false
            },
            _ => false,
        }
    }

    /// Toggle one option of a multi-select field.
    pub fn toggle_option(&mut self, id: String, option: &str)
        ensures
            *final(self) == (State { answers: final(self).answers, ..*old(self) }),
            forall|k: Seq<char>| #[trigger] answer_of(final(self).answers@, k) == if k == id@ {
                Some(toggle_spec(answer_of(old(self).answers@, id@), option@))
            } else {
                answer_of(old(self).answers@, k)
            },
    {
        let current: Vec<Json> = match self.answer(id.as_str()) {
            Some(Json::Array(items)) => {
                proof {
                    crate::json::lemma_view_array(*items);
                }
                copy_items(items)
            },
            Some(Json::Object(m)) => {
                proof {
                    crate::json::lemma_view_object(*m);
                }
                Vec::new()
            },
            _ => Vec::new(),
        };
        proof {
            crate::json::lemma_views(current@);
            if current@.len() == 0 {
                assert(crate::json::views(current@) =~= Seq::<JsonV>::empty());
            }
        }
        let next = toggle_items(current, option);
        proof {
            crate::json::lemma_view_array(next);
        }
        set_answer(&mut self.answers, id, Json::Array(next));
    }

    /// Start the form's answers from its fields' defaults, leaving out the
    /// defaults that would not count as an answer.
    pub fn seed_form(&mut self, form: Option<PlanningForm>)
        ensures
            final(self).form == form,
            *final(self) == (State { form: final(self).form, answers: final(self).answers, ..*old(self) }),
            forall|k: Seq<char>| #[trigger] answer_of(final(self).answers@, k) == match form {
                None => None,
                Some(f) => seeded(f.fields@, k),
            },
    {
        let mut answers: Vec<(String, Json)> = Vec::new();
        match &form {
            Some(f) => {
                let mut i: usize = 0;
                while i < f.fields.len()
                    invariant
                        i <= f.fields@.len(),
                        forall|k: Seq<char>| #[trigger] answer_of(answers@, k) == seeded(
                            f.fields@.take(i as int),
                            k,
                        ),
                    decreases f.fields@.len() - i,
                {
                    let field = &f.fields[i];
                    proof {
                        assert(f.fields@.take(i + 1).drop_last() =~= f.fields@.take(i as int));
                        assert(f.fields@.take(i + 1).last() == f.fields@[i as int]);
                    }
                    match &field.default {
                        Some(d) => {
                            if answered(Some(d)) {
                                set_answer(&mut answers, field.id.clone(), crate::json::copy_json(d));
                            }
                        },
                        None => {},
                    }
                    i = i + 1;
                }
                assert(f.fields@.take(i as int) =~= f.fields@);
            },
            None => {},
        }
        self.answers = answers;
        self.form = form;
    }

    /// Show what the user typed at once, before the answer comes back.
    pub fn push_local_user_turn(&mut self, content: &str)
        ensures
            final(self).messages@.len() == old(self).messages@.len() + 1,
            forall|j: int|
                0 <= j < old(self).messages@.len() ==> final(self).messages@[j] == old(
                    self,
                ).messages@[j],
            final(self).messages@.last().role@ == "user"@,
            final(self).messages@.last().content@ == content@,
            *final(self) == (State { messages: final(self).messages, ..*old(self) }),
    {
        self.messages.push(ChatMessage { role: "user".to_owned(), content: content.to_owned() });
    }

    /// Move the chat to another project: everything of the old project's
    /// conversation goes, and an open chat reloads.
    pub fn set_project(&mut self, project: Option<i64>) -> (e: Effect)
        ensures
            moved(*old(self), project, *final(self), e),
    {
        if self.project == project {
            return Effect::Nothing;
        }
        self.project = project;
        self.thread_id = None;
        self.threads = Vec::new();
        self.messages = Vec::new();
        self.pending = Vec::new();
        self.form = None;
        self.answers = Vec::new();
        self.usage = None;
        self.notice = None;
        if self.open {
            self.reload()
        } else {
            Effect::Nothing
        }
    }

    /// Reload the threads and the open thread, when there is a project.
    pub fn reload(&mut self) -> (e: Effect)
        ensures
            reloaded(*old(self), *final(self), e),
    {
        match self.project {
            None => Effect::Nothing,
            Some(p) => {
                self.loading = true;
                Effect::Reload { project: p, thread: self.thread_id }
            },
        }
    }

    /// Take in the server's copy of the thread.
    pub fn absorb(&mut self, t: ChatThread)
        ensures
            absorbed(*old(self), *final(self), t),
            final(self).loading == old(self).loading && final(self).sending == old(self).sending,
    {
        let ChatThread { thread_id, messages, pending, form, usage } = t;
        match thread_id {
            Some(id) => {
                self.thread_id = Some(id);
            },
            None => {},
        }
        self.messages = messages;
        self.pending = pending;
        self.seed_form(form);
        match usage {
            Some(u) => {
                self.usage = Some(u);
            },
            None => {},
        }
    }
}

/// Whether a send goes out: there is a project, something to say and no
/// turn already running.
pub open spec fn sends(st: State) -> bool {
    st.project is Some && trim(st.draft@).len() > 0 && !st.sending
}

/// What applying proposals leaves in the banner: the apply's own summary when
/// the assistant did not go on to say it, else what was there.
pub open spec fn notice_after(before: Option<String>, r: ApplyResult) -> Option<Seq<char>> {
    if r.continued {
        match before {
            Some(n) => Some(n@),
            None => None,
        }
    } else {
        applied_notice_spec(
            crate::text::texts(r.applied@),
            crate::text::texts(r.skipped@),
            crate::text::texts(r.guidance@),
        )
    }
}

/// The contract of [`State::update`], message by message.
pub open spec fn updated(before: State, msg: Message, after: State, e: Effect) -> bool {
    match msg {
        Message::TraceLogs(_) => e is Nothing && after == before,
        Message::Open => if before.open {
            e is Nothing && after == before
        } else if before.messages@.len() == 0 {
            reloaded(State { open: true, ..before }, after, e)
        } else {
            e is Nothing && after == (State { open: true, ..before })
        },
        Message::Close => e is Nothing && after == (State { open: false, ..before }),
        Message::Reload => reloaded(before, after, e),
        Message::ThreadsLoaded(Ok(threads)) => e is Nothing && after == (State { threads: threads, ..before }),
        Message::SelectThread(id) => if before.thread_id == Some(id) || before.sending
            || before.project is None {
            e is Nothing && after == before
        } else {
            &&& after == (State { thread_id: Some(id), loading: true, notice: None, ..before })
            &&& e == (Effect::LoadThread { project: before.project->0, thread: id })
        },
        Message::NewThread => if before.project is None || before.sending {
            e is Nothing && after == before
        } else {
            after == (State { loading: true, ..before }) && e == (Effect::NewThread {
                project: before.project->0,
            })
        },
        Message::ThreadCreated(Ok(id)) => reloaded(
            State { thread_id: Some(id), notice: None, ..before },
            after,
            e,
        ),
        Message::Loaded(Ok(t)) => {
            &&& absorbed(before, after, t)
            &&& !after.loading && after.sending == before.sending
            &&& e is ScrollToEnd
        },
        Message::DraftChanged(v) => e is Nothing && after == (State { draft: v, ..before }),
        Message::Send => if sends(before) {
            &&& after == (State {
                draft: after.draft,
                messages: after.messages,
                sending: true,
                notice: None,
                ..before
            })
            &&& after.draft@.len() == 0
            &&& after.messages@.len() == before.messages@.len() + 1
            &&& forall|j: int| 0 <= j < before.messages@.len() ==> after.messages@[j] == before.messages@[j]
            &&& after.messages@.last().role@ == "user"@
            &&& after.messages@.last().content@ == trim(before.draft@)
            &&& e matches Effect::Send { project, text, thread } && project == before.project->0
                && text@ == trim(before.draft@) && thread == before.thread_id
        } else {
            e is Nothing && after == before
        },
        Message::Retry => if before.project is Some && before.thread_id is Some && has_user_turn(
            before.messages@,
        ) && !before.sending {
            &&& after == (State { sending: true, notice: None, ..before })
            &&& e matches Effect::Retry { project, thread, index } && project == before.project->0
                && thread == before.thread_id->0 && is_last_user(before.messages@, index as int)
        } else {
            e is Nothing && after == before
        },
        Message::SetText(id, v) => e is Nothing && answer_set(before, after, id@, JsonV::Str(v@)),
        Message::SetBool(id, v) => e is Nothing && answer_set(before, after, id@, JsonV::Bool(v)),
        Message::Pick(id, v) => e is Nothing && answer_set(before, after, id@, JsonV::Str(v@)),
        Message::ToggleOption(id, option) => e is Nothing && answer_set(
            before,
            after,
            id@,
            toggle_spec(answer_of(before.answers@, id@), option@),
        ),
        Message::SubmitForm => if before.project is Some && before.form is Some && !before.sending
            && form_ready_spec(before) {
            &&& after == (State { sending: true, notice: None, ..before })
            &&& e matches Effect::SubmitForm { project, domain, answers, thread }
                && project == before.project->0 && thread == before.thread_id
                && answer_views(answers@) == answer_views(before.answers@)
                && domain@ == match before.form->0.domain {
                Some(d) => d@,
                None => "general"@,
            }
        } else {
            e is Nothing && after == before
        },
        Message::ApplyActions => applied_sent(before, after, e, false),
        Message::DismissActions => applied_sent(before, after, e, true),
        Message::Turned(Ok(t)) => {
            &&& absorbed(before, after, t)
            &&& after.loading == before.loading && !after.sending
            &&& e is ScrollToEnd
        },
        Message::Applied(Ok(r)) => {
            let mid = State { sending: false, notice: after.notice, ..before };
            &&& match after.notice {
                Some(n) => notice_after(before.notice, r) == Some(n@),
                None => notice_after(before.notice, r) is None,
            }
            &&& reloaded(mid, after, e)
        },
        Message::LinkClicked(url) => after == before && if ("http://"@.is_prefix_of(url@)
            || "https://"@.is_prefix_of(url@)) {
            e == Effect::OpenLink(url)
        } else {
            e is Nothing
        },
        Message::DismissError => e is Nothing && after == (State { error: None, notice: None, ..before }),
        Message::ThreadsLoaded(Err(m)) | Message::ThreadCreated(Err(m)) | Message::Loaded(Err(m))
        | Message::Turned(Err(m)) | Message::Applied(Err(m)) => e is Nothing && after == (State {
            loading: false,
            sending: false,
            error: Some(m),
            ..before
        }),
    }
}

/// Whether every required field of the open form is answered.
pub open spec fn form_ready_spec(st: State) -> bool {
    match st.form {
        None => false,
        Some(f) => forall|i: int|
            0 <= i < f.fields@.len() && (#[trigger] f.fields@[i]).required ==> answered_spec(
                answer_of(st.answers@, f.fields@[i].id@),
            ),
    }
}

/// Approving or dismissing the proposals: with a project and no turn running,
/// the chat is busy and the call carries the proposals (none for a dismissal)
/// and asks the assistant to go on only after an approval.
pub open spec fn applied_sent(before: State, after: State, e: Effect, dismiss: bool) -> bool {
    if before.project is Some && !before.sending {
        &&& after == (State { sending: true, notice: None, ..before })
        &&& e matches Effect::Apply { project, actions, thread, auto_continue }
            && project == before.project->0 && thread == before.thread_id && auto_continue == !dismiss
            && crate::json::views(actions@) == (if dismiss {
            Seq::empty()
        } else {
            crate::json::views(before.pending@)
        })
    } else {
        e is Nothing && after == before
    }
}

fn copy_answers(s: &Vec<(String, Json)>) -> (r: Vec<(String, Json)>)
    ensures
        answer_views(r@) == answer_views(s@),
{
    let mut out: Vec<(String, Json)> = Vec::new();
    let mut i: usize = 0;
    while i < s.len()
        invariant
            i <= s@.len(),
            answer_views(out@) == answer_views(s@.take(i as int)),
        decreases s@.len() - i,
    {
        let ghost prev = out@;
        out.push((s[i].0.clone(), crate::json::copy_json(&s[i].1)));
        proof {
            assert(answer_views(out@) =~= answer_views(prev).push((s@[i as int].0@, s@[i as int].1@)));
            assert(answer_views(s@.take(i + 1)) =~= answer_views(s@.take(i as int)).push(
                (s@[i as int].0@, s@[i as int].1@),
            ));
        }
        i = i + 1;
    }
    assert(s@.take(i as int) =~= s@);
    out
}

impl State {
    /// Send the draft as a turn, showing it at once.
    fn send(&mut self) -> (e: Effect)
        ensures
            updated(*old(self), Message::Send, *final(self), e),
    {
        let text = crate::text::trim_str(self.draft.as_str());
        let project = match self.project {
            Some(p) => p,
            None => {
                return Effect::Nothing;
            },
        };
        if chars_of(text.as_str()).len() == 0 || self.sending {
            return Effect::Nothing;
        }
        self.draft = String::new();
        self.push_local_user_turn(text.as_str());
        self.sending = true;
        self.notice = None;
        Effect::Send { project, text, thread: self.thread_id }
    }

    /// Ask again from the last user turn.
    fn retry(&mut self) -> (e: Effect)
        ensures
            updated(*old(self), Message::Retry, *final(self), e),
    {
        let (project, thread) = match (self.project, self.thread_id) {
            (Some(p), Some(t)) => (p, t),
            _ => {
                return Effect::Nothing;
            },
        };
        let index = match self.last_user_index() {
            Some(k) => k,
            None => {
                return Effect::Nothing;
            },
        };
        if self.sending {
            return Effect::Nothing;
        }
        self.sending = true;
        self.notice = None;
        Effect::Retry { project, thread, index }
    }

    /// Submit the open form's answers.
    fn submit_form(&mut self) -> (e: Effect)
        ensures
            updated(*old(self), Message::SubmitForm, *final(self), e),
    {
        let project = match self.project {
            Some(p) => p,
            None => {
                return Effect::Nothing;
            },
        };
        let domain = match &self.form {
            Some(f) => match &f.domain {
                Some(d) => d.clone(),
                None => "general".to_owned(),
            },
            None => {
                return Effect::Nothing;
            },
        };
        if self.sending || !self.form_ready() {
            return Effect::Nothing;
        }
        let answers = copy_answers(&self.answers);
        self.sending = true;
        self.notice = None;
        Effect::SubmitForm { project, domain, answers, thread: self.thread_id }
    }

    /// Approve the proposals, or dismiss them (the same call with none).
    fn apply(&mut self, dismiss: bool) -> (e: Effect)
        ensures
            applied_sent(*old(self), *final(self), e, dismiss),
    {
        let project = match self.project {
            Some(p) => p,
            None => {
                return Effect::Nothing;
            },
        };
        if self.sending {
            return Effect::Nothing;
        }
        let actions = if dismiss {
            Vec::new()
        } else {
            copy_items(&self.pending)
        };
        proof {
            if dismiss {
                assert(crate::json::views(actions@) =~= Seq::<JsonV>::empty());
            }
        }
        self.sending = true;
        self.notice = None;
        Effect::Apply { project, actions, thread: self.thread_id, auto_continue: !dismiss }
    }

    /// Take one message and say what should happen next.
    pub fn update(&mut self, msg: Message) -> (e: Effect)
        ensures
            updated(*old(self), msg, *final(self), e),
    {
        match msg {
            Message::TraceLogs(_) => Effect::Nothing,
            Message::Open => {
                if self.open {
                    return Effect::Nothing;
                }
                self.open = true;
                if self.messages.len() == 0 {
                    return self.reload();
                }
                Effect::Nothing
            },
            Message::Close => {
                self.open = false;
                Effect::Nothing
            },
            Message::Reload => self.reload(),
            Message::ThreadsLoaded(Ok(threads)) => {
                self.threads = threads;
                Effect::Nothing
            },
            Message::SelectThread(id) => {
                if self.thread_id == Some(id) || self.sending {
                    return Effect::Nothing;
                }
                let project = match self.project {
                    Some(p) => p,
                    None => {
                        return Effect::Nothing;
                    },
                };
                self.thread_id = Some(id);
                self.loading = true;
                self.notice = None;
                Effect::LoadThread { project, thread: id }
            },
            Message::NewThread => {
                let project = match self.project {
                    Some(p) => p,
                    None => {
                        return Effect::Nothing;
                    },
                };
                if self.sending {
                    return Effect::Nothing;
                }
                self.loading = true;
                Effect::NewThread { project }
            },
            Message::ThreadCreated(Ok(id)) => {
                self.thread_id = Some(id);
                self.notice = None;
                self.reload()
            },
            Message::Loaded(Ok(t)) => {
                self.loading = false;
                self.absorb(t);
                Effect::ScrollToEnd
            },
            Message::DraftChanged(v) => {
                self.draft = v;
                Effect::Nothing
            },
            Message::Send => self.send(),
            Message::Retry => self.retry(),
            Message::Turned(Ok(t)) => {
                self.sending = false;
                self.absorb(t);
                Effect::ScrollToEnd
            },
            Message::SetText(id, v) => {
                set_answer(&mut self.answers, id, Json::Str(v));
                Effect::Nothing
            },
            Message::SetBool(id, v) => {
                set_answer(&mut self.answers, id, Json::Bool(v));
                Effect::Nothing
            },
            Message::Pick(id, v) => {
                set_answer(&mut self.answers, id, Json::Str(v));
                Effect::Nothing
            },
            Message::ToggleOption(id, option) => {
                self.toggle_option(id, option.as_str());
                Effect::Nothing
            },
            Message::SubmitForm => self.submit_form(),
            Message::ApplyActions => self.apply(false),
            Message::DismissActions => self.apply(true),
            Message::Applied(Ok(r)) => {
                self.sending = false;
                if !r.continued {
                    self.notice = applied_notice(&r.applied, &r.skipped, &r.guidance);
                }
                self.reload()
            },
            Message::LinkClicked(url) => {
                if opens_link(url.as_str()) {
                    Effect::OpenLink(url)
                } else {
                    Effect::Nothing
                }
            },
            Message::DismissError => {
                self.error = None;
                self.notice = None;
                Effect::Nothing
            },
            Message::ThreadsLoaded(Err(m)) | Message::ThreadCreated(Err(m)) | Message::Loaded(Err(m))
            | Message::Turned(Err(m)) | Message::Applied(Err(m)) => {
                self.loading = false;
                self.sending = false;
                self.error = Some(m);
                Effect::Nothing
            },
        }
    }
}

/// `after` is `before` moved to `project`: nothing changes when it is the same
/// project; else the old conversation goes, and an open chat reloads the newest
/// thread of the new one.
pub open spec fn moved(before: State, project: Option<i64>, after: State, e: Effect) -> bool {
    if before.project == project {
        e is Nothing && after == before
    } else {
        let cleared = State {
            project: project,
            thread_id: None,
            threads: after.threads,
            messages: after.messages,
            pending: after.pending,
            form: None,
            answers: after.answers,
            usage: None,
            notice: None,
            loading: cleared_loading(before, project),
            ..before
        };
        &&& after == cleared
        &&& after.threads@.len() == 0 && after.messages@.len() == 0
        &&& after.pending@.len() == 0 && after.answers@.len() == 0
        &&& if before.open {
            match project {
                None => e is Nothing,
                Some(p) => e == (Effect::Reload { project: p, thread: None }),
            }
        } else {
            e is Nothing
        }
    }
}

/// Whether the chat is left loading after moving to `project`.
pub open spec fn cleared_loading(before: State, project: Option<i64>) -> bool {
    if before.open && project is Some {
        true
    } else {
        before.loading
    }
}

/// The answers a form starts with: each field's default that counts as an
/// answer, the last one for an id winning.
pub open spec fn seeded(fields: Seq<FormField>, k: Seq<char>) -> Option<JsonV>
    decreases fields.len(),
{
    if fields.len() == 0 {
        None
    } else {
        let f = fields.last();
        let d = match f.default {
            Some(j) => Some(j@),
            None => None,
        };
        if f.id@ == k && answered_spec(d) {
            d
        } else {
            seeded(fields.drop_last(), k)
        }
    }
}

fn copy_items(items: &Vec<Json>) -> (r: Vec<Json>)
    ensures
        crate::json::views(r@) == crate::json::views(items@),
{
    let mut out: Vec<Json> = Vec::new();
    let mut i: usize = 0;
    proof {
        crate::json::lemma_views(items@);
    }
    while i < items.len()
        invariant
            i <= items@.len(),
            forall|k: int| 0 <= k < items@.len() ==> #[trigger] crate::json::views(items@)[k] == items@[k]@,
            crate::json::views(items@).len() == items@.len(),
            crate::json::views(out@) == crate::json::views(items@).take(i as int),
        decreases items@.len() - i,
    {
        let ghost prev = out@;
        out.push(crate::json::copy_json(&items[i]));
        proof {
            crate::json::lemma_views(prev);
            crate::json::lemma_views(out@);
            assert(crate::json::views(out@) =~= crate::json::views(items@).take(i + 1));
        }
        i = i + 1;
    }
    assert(crate::json::views(items@).take(i as int) =~= crate::json::views(items@));
    out
}

impl ThreadOption {
    /// A copy of the option.
    pub fn clone_option(&self) -> (r: ThreadOption)
        ensures
            r.id == self.id,
            r.label@ == self.label@,
    {
        ThreadOption { id: self.id, label: self.label.clone() }
    }
}

/// What the chat says after proposals were applied: what was applied, what
/// was skipped, and any guidance, as one line; nothing when there is nothing
/// to say.
pub open spec fn applied_notice_spec(
    applied: Seq<Seq<char>>,
    skipped: Seq<Seq<char>>,
    guidance: Seq<Seq<char>>,
) -> Option<Seq<char>> {
    let parts = (if applied.len() > 0 {
        seq!["Applied: "@ + joined(applied, "; "@)]
    } else {
        Seq::empty()
    }) + (if skipped.len() > 0 {
        seq!["Skipped: "@ + joined(skipped, "; "@)]
    } else {
        Seq::empty()
    }) + guidance;
    if parts.len() == 0 {
        None
    } else {
        Some(joined(parts, " "@))
    }
}

/// The pieces joined with `sep` between them.
pub open spec fn joined(parts: Seq<Seq<char>>, sep: Seq<char>) -> Seq<char>
    decreases parts.len(),
{
    if parts.len() == 0 {
        Seq::empty()
    } else if parts.len() == 1 {
        parts[0]
    } else {
        joined(parts.drop_last(), sep) + sep + parts.last()
    }
}

fn join(parts: &Vec<String>, sep: &str) -> (r: Vec<char>)
    ensures
        r@ == joined(crate::text::texts(parts@), sep@),
{
    let mut out: Vec<char> = Vec::new();
    let mut i: usize = 0;
    while i < parts.len()
        invariant
            i <= parts@.len(),
            out@ == joined(crate::text::texts(parts@).take(i as int), sep@),
        decreases parts@.len() - i,
    {
        proof {
            assert(crate::text::texts(parts@).take(i + 1).drop_last() =~= crate::text::texts(
                parts@,
            ).take(i as int));
            assert(crate::text::texts(parts@).take(i + 1).last() == parts@[i as int]@);
            if i == 0 {
                assert(crate::text::texts(parts@).take(1)[0] == parts@[0]@);
            }
        }
        if i > 0 {
            push_str(&mut out, sep);
        }
        push_str(&mut out, parts[i].as_str());
        i = i + 1;
    }
    assert(crate::text::texts(parts@).take(i as int) =~= crate::text::texts(parts@));
    out
}

pub fn applied_notice(applied: &Vec<String>, skipped: &Vec<String>, guidance: &Vec<String>) -> (r:
    Option<String>)
    ensures
        match applied_notice_spec(
            crate::text::texts(applied@),
            crate::text::texts(skipped@),
            crate::text::texts(guidance@),
        ) {
            Some(t) => r is Some && r->0@ == t,
            None => r is None,
        },
{
    let mut parts: Vec<String> = Vec::new();
    if applied.len() > 0 {
        let mut p: Vec<char> = Vec::new();
        push_str(&mut p, "Applied: ");
        push_all(&mut p, &join(applied, "; "));
        parts.push(string_of(&p));
    }
    if skipped.len() > 0 {
        let mut p: Vec<char> = Vec::new();
        push_str(&mut p, "Skipped: ");
        push_all(&mut p, &join(skipped, "; "));
        parts.push(string_of(&p));
    }
    let ghost head = crate::text::texts(parts@);
    let mut i: usize = 0;
    while i < guidance.len()
        invariant
            i <= guidance@.len(),
            crate::text::texts(parts@) == head + crate::text::texts(guidance@).take(i as int),
        decreases guidance@.len() - i,
    {
        let ghost prev = parts@;
        let g = guidance[i].clone();
        parts.push(g);
        proof {
            crate::text::lemma_texts_push(prev, g);
            crate::text::lemma_texts_take_next(guidance@, i as int);
            assert(crate::text::texts(parts@) =~= head + crate::text::texts(guidance@).take(i + 1));
        }
        i = i + 1;
    }
    assert(crate::text::texts(guidance@).take(i as int) =~= crate::text::texts(guidance@));
    proof {
        let a = crate::text::texts(applied@);
        let s = crate::text::texts(skipped@);
        assert(head =~= (if a.len() > 0 {
            seq!["Applied: "@ + joined(a, "; "@)]
        } else {
            Seq::empty()
        }) + (if s.len() > 0 {
            seq!["Skipped: "@ + joined(s, "; "@)]
        } else {
            Seq::empty()
        }));
    }
    if parts.len() == 0 {
        None
    } else {
        Some(string_of(&join(&parts, " ")))
    }
}

/// Whether a link in the transcript is one the app opens: a web address.
pub fn opens_link(url: &str) -> (r: bool)
    ensures
        r == ("http://"@.is_prefix_of(url@) || "https://"@.is_prefix_of(url@)),
{
    crate::text::starts_with_str(url, "http://") || crate::text::starts_with_str(url, "https://")
}


/// A thread's label in the picker stays one line: never longer than the cap
/// and the ellipsis that marks a cut.
pub proof fn labels_stay_one_line(t: ThreadSummary)
    ensures
        label_of(t).len() <= MAX_LABEL + 1,
{
}

/// What was answered for a field is what reads back for it, and setting one
/// field leaves every other field's answer as it was.
pub proof fn an_answer_reads_back(before: State, after: State, id: Seq<char>, v: JsonV, other: Seq<char>)
    requires
        answer_set(before, after, id, v),
        other != id,
    ensures
        answer_of(after.answers@, id) == Some(v),
        answer_of(after.answers@, other) == answer_of(before.answers@, other),
{
}

} // verus!
