//! The agenda: one project's assistant board, sliced by horizon, with the
//! suggestions still waiting on a decision, and the planning chat beside it.
use vstd::prelude::*;
use crate::agenda_chat;
use crate::json::Json;
use crate::text::str_eq;

verus! {

/// A project as the server lists it.
#[derive(Debug)]
pub struct ProjectSummary {
    pub id: i64,
    pub name: String,
}

/// A category of the board.
#[derive(Debug)]
pub struct Category {
    pub id: i64,
    pub name: String,
}

/// The board of one horizon: its categories, and the rest as the server sent it.
#[derive(Debug)]
pub struct Dashboard {
    pub categories: Vec<Category>,
    pub data: Json,
}

/// The horizon a fresh agenda shows.
pub const FIRST_HORIZON: &'static str = "day";

/// The heading of a horizon.
pub open spec fn horizon_label_spec(h: Seq<char>) -> Seq<char> {
    if h == "day"@ {
        "Today"@
    } else if h == "week"@ {
        "This week"@
    } else if h == "month"@ {
        "This month"@
    } else {
        "Ahead"@
    }
}

pub fn horizon_label(horizon: &str) -> (r: &'static str)
    ensures
        r@ == horizon_label_spec(horizon@),
{
    if str_eq(horizon, "day") {
        "Today"
    } else if str_eq(horizon, "week") {
        "This week"
    } else if str_eq(horizon, "month") {
        "This month"
    } else {
        "Ahead"
    }
}

/// The agenda screen.
#[derive(Debug)]
pub struct State {
    pub projects: Vec<ProjectSummary>,
    pub project: Option<i64>,
    pub horizon: String,
    pub dashboard: Option<Dashboard>,
    /// Suggestions still waiting on a decision, as the server sent them.
    pub reviews: Vec<Json>,
    /// A first fetch is in flight: the difference between "nothing here" and "not yet".
    pub loading: bool,
    pub busy: bool,
    pub error: Option<String>,
    /// The planning chat, which follows this screen's project.
    pub chat: agenda_chat::State,
}

/// A write the board asks for; the board is fetched again once it is done.
#[derive(Debug, PartialEq, Eq, Structural)]
pub enum Write {
    Complete(i64),
    RunReview(i64),
    ApplyReview(i64),
    DismissReview(i64),
}

/// What the screen is told.
#[derive(Debug)]
pub enum Message {
    /// "View logs" on an error banner; the program around the screen handles it.
    TraceLogs(String),
    Refresh,
    ProjectsLoaded(Result<Vec<ProjectSummary>, String>),
    SelectProject(i64),
    SetHorizon(String),
    DashboardLoaded(Result<Dashboard, String>),
    ReviewsLoaded(Result<Vec<Json>, String>),
    Complete(i64),
    RunReview,
    ApplyReview(i64),
    DismissReview(i64),
    /// A write finished; the board is fetched again rather than patched.
    Done(Result<(), String>),
    Dismiss,
    Chat(agenda_chat::Message),
}

/// What the screen asks of the program around it: any of a fetch of the
/// projects, a fetch of one project's board and reviews at a horizon, a
/// write, and what the chat asked for.
#[derive(Debug)]
pub struct Effects {
    pub projects: bool,
    pub load: Option<(i64, String)>,
    pub write: Option<Write>,
    pub chat: agenda_chat::Effect,
}

impl Effects {
    pub open spec fn none(self) -> bool {
        !self.projects && self.load is None && self.write is None && self.chat is Nothing
    }

    /// Only the board of `project` at `horizon` is fetched.
    pub open spec fn loads(self, project: i64, horizon: Seq<char>) -> bool {
        &&& !self.projects && self.write is None && self.chat is Nothing
        &&& self.load matches Some((p, h)) && p == project && h@ == horizon
    }

    fn nothing() -> (r: Effects)
        ensures
            r.none(),
    {
        Effects { projects: false, load: None, write: None, chat: agenda_chat::Effect::Nothing }
    }
}

/// The board shown, fetched again: `Some` where a project is picked.
pub open spec fn reload_of(st: State) -> Option<(i64, Seq<char>)> {
    match st.project {
        Some(p) => Some((p, st.horizon@)),
        None => None,
    }
}

pub open spec fn load_matches(l: Option<(i64, String)>, want: Option<(i64, Seq<char>)>) -> bool {
    match (l, want) {
        (None, None) => true,
        (Some((p, h)), Some((q, k))) => p == q && h@ == k,
        _ => false,
    }
}

/// The contract of [`State::update`], message by message.
pub open spec fn updated(before: State, msg: Message, after: State, e: Effects) -> bool {
    match msg {
        Message::TraceLogs(_) => e.none() && after == before,
        Message::Refresh => {
            &&& after == (State { loading: true, ..before })
            &&& e.projects && e.write is None && e.chat is Nothing
            &&& load_matches(e.load, reload_of(before))
        },
        Message::ProjectsLoaded(Ok(ps)) => {
            let kept = match before.project {
                Some(id) => exists|i: int| 0 <= i < ps@.len() && (#[trigger] ps@[i]).id == id,
                None => false,
            };
            if kept {
                e.none() && after == (State { error: None, projects: ps, ..before })
            } else if ps@.len() > 0 {
                let first = ps@[0].id;
                &&& after == (State {
                    error: None,
                    projects: ps,
                    project: Some(first),
                    loading: true,
                    chat: after.chat,
                    ..before
                })
                &&& agenda_chat::moved(before.chat, Some(first), after.chat, e.chat)
                &&& !e.projects && e.write is None
                &&& load_matches(e.load, Some((first, before.horizon@)))
            } else {
                &&& after == (State {
                    error: None,
                    projects: ps,
                    project: None,
                    loading: false,
                    dashboard: None,
                    chat: after.chat,
                    ..before
                })
                &&& agenda_chat::moved(before.chat, None, after.chat, e.chat)
                &&& !e.projects && e.write is None && e.load is None
            }
        },
        Message::SelectProject(id) => if before.project == Some(id) {
            e.none() && after == before
        } else {
            &&& after == (State {
                project: Some(id),
                dashboard: None,
                reviews: after.reviews,
                loading: true,
                chat: after.chat,
                ..before
            })
            &&& after.reviews@.len() == 0
            &&& agenda_chat::moved(before.chat, Some(id), after.chat, e.chat)
            &&& !e.projects && e.write is None
            &&& load_matches(e.load, Some((id, before.horizon@)))
        },
        Message::SetHorizon(h) => if before.horizon@ == h@ {
            e.none() && after == before
        } else {
            &&& after == (State { horizon: h, loading: true, ..before })
            &&& !e.projects && e.write is None && e.chat is Nothing
            &&& load_matches(e.load, reload_of(after))
        },
        Message::DashboardLoaded(Ok(d)) => e.none() && after == (State {
            loading: false,
            error: None,
            dashboard: Some(d),
            ..before
        }),
        Message::ReviewsLoaded(Ok(r)) => e.none() && after == (State { error: None, reviews: r, ..before }),
        Message::Complete(item) => writes(before, after, e, Some(Write::Complete(item))),
        Message::RunReview => match before.project {
            Some(p) => writes(before, after, e, Some(Write::RunReview(p))),
            None => e.none() && after == before,
        },
        Message::ApplyReview(id) => writes(before, after, e, Some(Write::ApplyReview(id))),
        Message::DismissReview(id) => writes(before, after, e, Some(Write::DismissReview(id))),
        Message::Done(Ok(())) => {
            &&& after == (State { busy: false, ..before })
            &&& !e.projects && e.write is None && e.chat is Nothing
            &&& load_matches(e.load, reload_of(before))
        },
        Message::Dismiss => e.none() && after == (State { error: None, ..before }),
        Message::Chat(m) => {
            let board_changed = m matches agenda_chat::Message::Applied(Ok(_));
            &&& after == (State { chat: after.chat, ..before })
            &&& agenda_chat::updated(before.chat, m, after.chat, e.chat)
            &&& !e.projects && e.write is None
            &&& if board_changed {
                load_matches(e.load, reload_of(before))
            } else {
                e.load is None
            }
        },
        Message::ProjectsLoaded(Err(m)) | Message::DashboardLoaded(Err(m)) | Message::ReviewsLoaded(
            Err(m),
        ) | Message::Done(Err(m)) => e.none() && after == (State {
            loading: false,
            busy: false,
            error: Some(m),
            ..before
        }),
    }
}

/// A write goes out and the screen is busy until it is done.
pub open spec fn writes(before: State, after: State, e: Effects, w: Option<Write>) -> bool {
    &&& after == (State { busy: true, ..before })
    &&& !e.projects && e.load is None && e.chat is Nothing && e.write == w
}

/// Whether a project with this id is listed.
fn listed(ps: &Vec<ProjectSummary>, id: i64) -> (r: bool)
    ensures
        r == exists|i: int| 0 <= i < ps@.len() && (#[trigger] ps@[i]).id == id,
{
    let mut i: usize = 0;
    while i < ps.len()
        invariant
            i <= ps@.len(),
            forall|j: int| 0 <= j < i ==> (#[trigger] ps@[j]).id != id,
        decreases ps@.len() - i,
    {
        if ps[i].id == id {
            return true;
        }
        i = i + 1;
    }
    false
}

impl State {
    /// A fresh agenda, showing the first horizon and no project.
    pub fn new() -> (r: State)
        ensures
            r.projects@.len() == 0,
            r.project is None,
            r.horizon@ == FIRST_HORIZON@,
            r.dashboard is None,
            r.reviews@.len() == 0,
            !r.loading && !r.busy && r.error is None,
    {
        State {
            projects: Vec::new(),
            project: None,
            horizon: FIRST_HORIZON.to_owned(),
            dashboard: None,
            reviews: Vec::new(),
            loading: false,
            busy: false,
            error: None,
            chat: agenda_chat::State::new(),
        }
    }

    /// The category of the board with this id.
    pub fn category(&self, id: Option<i64>) -> (r: Option<&Category>)
        ensures
            match (self.dashboard, id) {
                (Some(d), Some(id)) => match r {
                    Some(c) => exists|i: int|
                        0 <= i < d.categories@.len() && d.categories@[i] == *c && c.id == id
                            && forall|j: int| 0 <= j < i ==> (#[trigger] d.categories@[j]).id != id,
                    None => forall|j: int|
                        0 <= j < d.categories@.len() ==> (#[trigger] d.categories@[j]).id != id,
                },
                _ => r is None,
            },
    {
        let board = match &self.dashboard {
            Some(b) => b,
            None => {
                return None;
            },
        };
        let want = match id {
            Some(i) => i,
            None => {
                return None;
            },
        };
        let mut i: usize = 0;
        while i < board.categories.len()
            invariant
                self.dashboard == Some(*board),
                id == Some(want),
                i <= board.categories@.len(),
                forall|j: int| 0 <= j < i ==> (#[trigger] board.categories@[j]).id != want,
            decreases board.categories@.len() - i,
        {
            if board.categories[i].id == want {
                return Some(&board.categories[i]);
            }
            i = i + 1;
        }
        None
    }

    /// The name of the listed project with this id.
    pub fn project_name(&self, id: i64) -> (r: Option<&str>)
        ensures
            match r {
                Some(n) => exists|i: int|
                    0 <= i < self.projects@.len() && self.projects@[i].id == id && n@
                        == self.projects@[i].name@ && forall|j: int|
                        0 <= j < i ==> (#[trigger] self.projects@[j]).id != id,
                None => forall|j: int|
                    0 <= j < self.projects@.len() ==> (#[trigger] self.projects@[j]).id != id,
            },
    {
        let mut i: usize = 0;
        while i < self.projects.len()
            invariant
                i <= self.projects@.len(),
                forall|j: int| 0 <= j < i ==> (#[trigger] self.projects@[j]).id != id,
            decreases self.projects@.len() - i,
        {
            if self.projects[i].id == id {
                return Some(self.projects[i].name.as_str());
            }
            i = i + 1;
        }
        None
    }

    /// Fetch the board shown again, when a project is picked.
    fn reload(&self) -> (r: Option<(i64, String)>)
        ensures
            load_matches(r, reload_of(*self)),
    {
        match self.project {
            Some(p) => Some((p, self.horizon.clone())),
            None => None,
        }
    }

    fn write(&mut self, w: Write) -> (e: Effects)
        ensures
            writes(*old(self), *final(self), e, Some(w)),
    {
        self.busy = true;
        Effects { projects: false, load: None, write: Some(w), chat: agenda_chat::Effect::Nothing }
    }

    fn projects_loaded(&mut self, ps: Vec<ProjectSummary>) -> (e: Effects)
        ensures
            updated(*old(self), Message::ProjectsLoaded(Ok(ps)), *final(self), e),
    {
        self.error = None;
        let first = if ps.len() > 0 {
            Some(ps[0].id)
        } else {
            None
        };
        let kept = match self.project {
            Some(id) => listed(&ps, id),
            None => false,
        };
        self.projects = ps;
        if kept {
            return Effects::nothing();
        }
        match first {
            Some(id) => {
                self.project = Some(id);
                self.loading = true;
                let chat = self.chat.set_project(Some(id));
                Effects {
                    projects: false,
                    load: Some((id, self.horizon.clone())),
                    write: None,
                    chat,
                }
            },
            None => {
                self.loading = false;
                self.dashboard = None;
                self.project = None;
                let chat = self.chat.set_project(None);
                Effects { projects: false, load: None, write: None, chat }
            },
        }
    }

    /// Take one message and say what should happen next.
    pub fn update(&mut self, msg: Message) -> (e: Effects)
        ensures
            updated(*old(self), msg, *final(self), e),
    {
        match msg {
            Message::TraceLogs(_) => Effects::nothing(),
            Message::Refresh => {
                self.loading = true;
                Effects { projects: true, load: self.reload(), write: None, chat: agenda_chat::Effect::Nothing }
            },
            Message::ProjectsLoaded(Ok(ps)) => self.projects_loaded(ps),
            Message::SelectProject(id) => {
                if self.project == Some(id) {
                    return Effects::nothing();
                }
                self.project = Some(id);
                self.dashboard = None;
                self.reviews = Vec::new();
                self.loading = true;
                let chat = self.chat.set_project(Some(id));
                Effects { projects: false, load: Some((id, self.horizon.clone())), write: None, chat }
            },
            Message::SetHorizon(h) => {
                if str_eq(self.horizon.as_str(), h.as_str()) {
                    return Effects::nothing();
                }
                self.horizon = h;
                self.loading = true;
                Effects { projects: false, load: self.reload(), write: None, chat: agenda_chat::Effect::Nothing }
            },
            Message::DashboardLoaded(Ok(d)) => {
                self.loading = false;
                self.error = None;
                self.dashboard = Some(d);
                Effects::nothing()
            },
            Message::ReviewsLoaded(Ok(r)) => {
                self.error = None;
                self.reviews = r;
                Effects::nothing()
            },
            Message::Complete(item) => self.write(Write::Complete(item)),
            Message::RunReview => match self.project {
                Some(p) => self.write(Write::RunReview(p)),
                None => Effects::nothing(),
            },
            Message::ApplyReview(id) => self.write(Write::ApplyReview(id)),
            Message::DismissReview(id) => self.write(Write::DismissReview(id)),
            Message::Done(Ok(())) => {
                self.busy = false;
                Effects { projects: false, load: self.reload(), write: None, chat: agenda_chat::Effect::Nothing }
            },
            Message::Dismiss => {
                self.error = None;
                Effects::nothing()
            },
            Message::Chat(m) => {
                let board_changed = match &m {
                    agenda_chat::Message::Applied(Ok(_)) => true,
                    _ => false,
                };
                let chat = self.chat.update(m);
                let load = if board_changed {
                    self.reload()
                } else {
                    None
                };
                Effects { projects: false, load, write: None, chat }
            },
            Message::ProjectsLoaded(Err(m)) | Message::DashboardLoaded(Err(m))
            | Message::ReviewsLoaded(Err(m)) | Message::Done(Err(m)) => {
                self.loading = false;
                self.busy = false;
                self.error = Some(m);
                Effects::nothing()
            },
        }
    }
}

} // verus!
