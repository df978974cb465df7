//! Several coder sessions side by side. Each session keeps its own id for
//! good, so what a background turn sends lands in the session it belongs to;
//! one session is in front; and two sessions never run a turn in the same
//! checkout at once.
use vstd::prelude::*;
use crate::coder::{copy_allowlist, fresh_from, fresh_of, rules_for, title_spec, turn_views, State, Status};
use crate::coder_turn::{handled, settled, stopped_spec, ticked, updated, Effect, Message};

verus! {

/// One session on the board.
#[derive(Debug)]
pub struct Slot {
    pub id: u64,
    pub state: State,
}

/// One row of the board's list.
#[derive(Debug)]
pub struct Row {
    pub id: u64,
    pub title: String,
    pub status: Status,
    pub active: bool,
}

/// The sessions, which one is in front, the last id handed out, and the rows.
#[derive(Debug)]
pub struct Board {
    pub sessions: Vec<Slot>,
    pub active: usize,
    pub seq: u64,
    pub rows: Vec<Row>,
}

/// What the board is told.
#[derive(Debug)]
pub enum BoardMessage {
    /// A message for the session with this id, wherever it is on the board.
    For(u64, Message),
    /// A message for the session in front.
    Active(Message),
    Select(u64),
    Close(u64),
    /// A second of the clock, for every session.
    Tick,
    /// A frame of the spinner, for every session.
    AnimTick,
    /// A new session beside the one in front, on the same folder and settings.
    New,
}

pub open spec fn ids(s: Seq<Slot>) -> Seq<u64> {
    s.map_values(|x: Slot| x.id)
}

/// The ids of the sessions running a turn, in board order.
pub open spec fn running_ids(s: Seq<Slot>) -> Seq<u64>
    decreases s.len(),
{
    if s.len() == 0 {
        Seq::empty()
    } else if s.last().state.sending {
        running_ids(s.drop_last()).push(s.last().id)
    } else {
        running_ids(s.drop_last())
    }
}

pub open spec fn status_of(st: State) -> Status {
    if st.pending is Some || st.plan_card is Some {
        Status::Awaiting
    } else if st.sending {
        Status::Running
    } else {
        Status::Idle
    }
}

/// Whether a session holds its checkout: running a turn, or waiting on a decision.
pub open spec fn holds_checkout(st: State) -> bool {
    st.sending || st.pending is Some
}

/// The checkouts the sessions other than `i` are holding.
pub open spec fn busy_list(s: Seq<Slot>, i: int) -> Seq<Seq<char>>
    decreases s.len(),
{
    if s.len() == 0 {
        Seq::empty()
    } else {
        let j = s.len() - 1;
        let rest = busy_list(s.drop_last(), i);
        let x = s.last().state;
        if j != i && holds_checkout(x) && x.root is Some {
            rest.push(x.root->0@)
        } else {
            rest
        }
    }
}

/// The effects of one session, without its tag.
pub open spec fn untag(fx: Seq<(u64, Effect)>) -> Seq<Effect> {
    fx.map_values(|p: (u64, Effect)| p.1)
}

/// The session at `i` has taken `m`, told which checkouts the others hold;
/// its effects carry its id; a saved rule goes to every session.
pub open spec fn dispatched(before: Board, i: int, m: Message, after: Board, fx: Seq<(u64, Effect)>) -> bool {
    let id = before.sessions@[i].id;
    &&& after.sessions@.len() == before.sessions@.len()
    &&& ids(after.sessions@) == ids(before.sessions@)
    &&& after.active == before.active && after.seq == before.seq
    &&& forall|k: int| 0 <= k < fx.len() ==> (#[trigger] fx[k]).0 == id
    &&& updated(before.sessions@[i].state, busy_list(before.sessions@, i), m, after.sessions@[i].state, untag(fx))
    &&& if m is AlwaysAllow {
        forall|j: int|
            0 <= j < after.sessions@.len() && j != i ==> {
                &&& same_but_rules((#[trigger] after.sessions@[j]).state, before.sessions@[j].state)
                &&& forall|k: Seq<char>|
                    #[trigger] rules_for(after.sessions@[j].state.allowlist@, k) == rules_for(
                        after.sessions@[i].state.allowlist@,
                        k,
                    )
            }
    } else {
        forall|j: int| 0 <= j < after.sessions@.len() && j != i ==> #[trigger] after.sessions@[j] == before.sessions@[j]
    }
}

impl Board {
    /// The board's shape: at least one session, one of them in front, no id
    /// twice, every id already handed out.
    pub open spec fn wf(&self) -> bool {
        &&& self.sessions@.len() > 0
        &&& self.active < self.sessions@.len()
        &&& ids(self.sessions@).no_duplicates()
        &&& forall|j: int| 0 <= j < self.sessions@.len() ==> (#[trigger] self.sessions@[j]).id <= self.seq
    }

    /// The rows match the sessions: one each, in order, the front one marked.
    pub open spec fn rows_fresh(&self) -> bool {
        &&& self.rows@.len() == self.sessions@.len()
        &&& forall|j: int|
            0 <= j < self.rows@.len() ==> {
                let r = #[trigger] self.rows@[j];
                let st = self.sessions@[j].state;
                &&& r.id == self.sessions@[j].id
                &&& r.title@ == title_spec(st.thread_id, st.threads@, turn_views(st.turns@))
                &&& r.status == status_of(st)
                &&& r.active == (j == self.active)
            }
    }

    /// A board holding one session, with id 1.
    pub fn new(state: State) -> (r: Board)
        ensures
            r.wf(),
            r.rows_fresh(),
            r.sessions@.len() == 1,
            r.sessions@[0].id == 1 && r.sessions@[0].state == state,
            r.active == 0,
            r.seq == 1,
    {
        let mut sessions: Vec<Slot> = Vec::new();
        sessions.push(Slot { id: 1, state });
        let mut b = Board { sessions, active: 0, seq: 1, rows: Vec::new() };
        assert(ids(b.sessions@) =~= seq![1u64]);
        b.refresh();
        b
    }

    /// Where the session with this id is on the board.
    pub fn index_of(&self, id: u64) -> (r: Option<usize>)
        ensures
            match r {
                Some(i) => i < self.sessions@.len() && self.sessions@[i as int].id == id,
                None => forall|j: int| 0 <= j < self.sessions@.len() ==> (#[trigger] self.sessions@[j]).id != id,
            },
    {
        let mut i: usize = 0;
        while i < self.sessions.len()
            invariant
                i <= self.sessions@.len(),
                forall|j: int| 0 <= j < i ==> (#[trigger] self.sessions@[j]).id != id,
            decreases self.sessions@.len() - i,
        {
            if self.sessions[i].id == id {
                return Some(i);
            }
            i = i + 1;
        }
        None
    }

    /// The session with this id.
    pub fn get(&self, id: u64) -> (r: Option<&State>)
        ensures
            match r {
                Some(st) => exists|j: int|
                    0 <= j < self.sessions@.len() && self.sessions@[j].id == id && self.sessions@[j].state == *st,
                None => forall|j: int| 0 <= j < self.sessions@.len() ==> (#[trigger] self.sessions@[j]).id != id,
            },
    {
        match self.index_of(id) {
            Some(i) => Some(&self.sessions[i].state),
            None => None,
        }
    }

    /// The session in front.
    pub fn active(&self) -> (r: &State)
        requires
            self.wf(),
        ensures
            *r == self.sessions@[self.active as int].state,
    {
        &self.sessions[self.active].state
    }

    /// The ids of the sessions running a turn, in board order.
    pub fn running(&self) -> (r: Vec<u64>)
        ensures
            r@ == running_ids(self.sessions@),
    {
        let mut out: Vec<u64> = Vec::new();
        let mut i: usize = 0;
        while i < self.sessions.len()
            invariant
                i <= self.sessions@.len(),
                out@ == running_ids(self.sessions@.take(i as int)),
            decreases self.sessions@.len() - i,
        {
            assert(self.sessions@.take(i + 1).drop_last() =~= self.sessions@.take(i as int));
            assert(self.sessions@.take(i + 1).last() == self.sessions@[i as int]);
            if self.sessions[i].state.sending {
                out.push(self.sessions[i].id);
            }
            i = i + 1;
        }
        assert(self.sessions@.take(i as int) =~= self.sessions@);
        out
    }

    /// Whether anything is in flight anywhere on the board.
    pub fn any_busy(&self) -> (r: bool)
        ensures
            r == exists|j: int|
                0 <= j < self.sessions@.len() && {
                    let st = #[trigger] self.sessions@[j].state;
                    st.sending || st.pending is Some || st.threads_loading || st.checkpoints_loading
                },
    {
        let mut i: usize = 0;
        while i < self.sessions.len()
            invariant
                i <= self.sessions@.len(),
                forall|j: int|
                    0 <= j < i ==> {
                        let st = #[trigger] self.sessions@[j].state;
                        !(st.sending || st.pending is Some || st.threads_loading || st.checkpoints_loading)
                    },
            decreases self.sessions@.len() - i,
        {
            let st = &self.sessions[i].state;
            if st.sending || st.pending.is_some() || st.threads_loading || st.checkpoints_loading {
                return true;
            }
            i = i + 1;
        }
        false
    }

    /// Make the rows again from the sessions.
    fn refresh(&mut self)
        ensures
            final(self).sessions == old(self).sessions,
            final(self).active == old(self).active,
            final(self).seq == old(self).seq,
            final(self).rows_fresh(),
    {
        let mut rows: Vec<Row> = Vec::new();
        let mut i: usize = 0;
        while i < self.sessions.len()
            invariant
                i <= self.sessions@.len(),
                rows@.len() == i,
                forall|j: int|
                    0 <= j < i ==> {
                        let r = #[trigger] rows@[j];
                        let st = self.sessions@[j].state;
                        &&& r.id == self.sessions@[j].id
                        &&& r.title@ == title_spec(st.thread_id, st.threads@, turn_views(st.turns@))
                        &&& r.status == status_of(st)
                        &&& r.active == (j == self.active)
                    },
            decreases self.sessions@.len() - i,
        {
            let s = &self.sessions[i];
            rows.push(Row { id: s.id, title: s.state.title(), status: s.state.status(), active: i == self.active });
            i = i + 1;
        }
        self.rows = rows;
    }
}

/// The checkouts the sessions other than `i` hold, as a list.
fn busy_for(sessions: &Vec<Slot>, i: usize) -> (r: Vec<String>)
    ensures
        crate::text::texts(r@) == busy_list(sessions@, i as int),
{
    let mut out: Vec<String> = Vec::new();
    let mut j: usize = 0;
    while j < sessions.len()
        invariant
            j <= sessions@.len(),
            crate::text::texts(out@) == busy_list(sessions@.take(j as int), i as int),
        decreases sessions@.len() - j,
    {
        let st = &sessions[j].state;
        assert(sessions@.take(j + 1).drop_last() =~= sessions@.take(j as int));
        assert(sessions@.take(j + 1).last() == sessions@[j as int]);
        if j != i && (st.sending || st.pending.is_some()) {
            match &st.root {
                Some(r) => {
                    let ghost prev = out@;
                    out.push(r.clone());
                    proof {
                        crate::text::lemma_texts_push(prev, out@.last());
                        assert(out@ =~= prev.push(out@.last()));
                    }
                },
                None => {},
            }
        }
        j = j + 1;
    }
    assert(sessions@.take(j as int) =~= sessions@);
    out
}

fn tag(id: u64, fx: Vec<Effect>) -> (r: Vec<(u64, Effect)>)
    ensures
        r@ == fx@.map_values(|x: Effect| (id, x)),
{
    let mut out: Vec<(u64, Effect)> = Vec::new();
    let mut rest = fx;
    let ghost all = rest@;
    let mut taken: Vec<Effect> = Vec::new();
    while rest.len() > 0
        invariant
            all == rest@ + taken@.reverse(),
        decreases rest@.len(),
    {
        let ghost r0 = rest@;
        let ghost t0 = taken@;
        let x = rest.pop().unwrap();
        taken.push(x);
        assert(r0 =~= rest@.push(x));
        assert(taken@.reverse() =~= seq![x] + t0.reverse());
        assert(r0 + t0.reverse() =~= rest@ + taken@.reverse());
    }
    assert(rest@ =~= Seq::<Effect>::empty());
    assert(all =~= taken@.reverse());
    let ghost mut done: Seq<Effect> = Seq::empty();
    while taken.len() > 0
        invariant
            all == done + taken@.reverse(),
            out@ == done.map_values(|x: Effect| (id, x)),
        decreases taken@.len(),
    {
        let ghost t0 = taken@;
        let x = taken.pop().unwrap();
        proof {
            assert(t0 =~= taken@.push(x));
            assert(t0.reverse() =~= seq![x] + taken@.reverse());
        }
        let ghost d0 = done;
        out.push((id, x));
        proof {
            done = d0.push(x);
            assert(all =~= done + taken@.reverse());
            assert(out@ =~= done.map_values(|x: Effect| (id, x)));
        }
    }
    assert(taken@.reverse() =~= Seq::<Effect>::empty());
    assert(done =~= all);
    out
}


/// What stopping a session asks for: nothing when it is not running.
pub open spec fn stop_fx(st: State) -> Seq<Effect> {
    if st.sending {
        crate::coder_turn::stop_effects(st)
    } else {
        Seq::empty()
    }
}

/// The session at `i` is stopped and leaves the board, the front moving to
/// stay on a session; the last session starts afresh in place instead.
pub open spec fn closed_at(before: Board, i: int, after: Board, fx: Seq<(u64, Effect)>) -> bool {
    &&& forall|k: int| 0 <= k < fx.len() ==> (#[trigger] fx[k]).0 == before.sessions@[i].id
    &&& untag(fx) == stop_fx(before.sessions@[i].state)
    &&& after.seq == before.seq
    &&& if before.sessions@.len() == 1 {
        &&& after.sessions@.len() == 1 && after.active == 0
        &&& after.sessions@[0].id == before.sessions@[0].id
        &&& fresh_of(after.sessions@[0].state, before.sessions@[0].state)
    } else {
        &&& after.sessions@ == before.sessions@.remove(i)
        &&& after.active == if before.active > i {
            (before.active - 1) as usize
        } else if before.active < after.sessions@.len() {
            before.active
        } else {
            (after.sessions@.len() - 1) as usize
        }
    }
}

/// What each message does to the board.
pub open spec fn board_updated(before: Board, msg: BoardMessage, after: Board, fx: Seq<(u64, Effect)>) -> bool {
    match msg {
        BoardMessage::For(id, m) => match find(before.sessions@, id) {
            Some(i) => dispatched(before, i, m, after, fx),
            None => after.sessions == before.sessions && after.active == before.active && after.seq
                == before.seq && fx.len() == 0,
        },
        BoardMessage::Active(m) => dispatched(before, before.active as int, m, after, fx),
        BoardMessage::Select(id) => {
            &&& after.sessions == before.sessions && after.seq == before.seq && fx.len() == 0
            &&& after.active == match find(before.sessions@, id) {
                Some(i) => i as usize,
                None => before.active,
            }
        },
        BoardMessage::Close(id) => match find(before.sessions@, id) {
            Some(i) => closed_at(before, i, after, fx),
            None => after.sessions == before.sessions && after.active == before.active && after.seq
                == before.seq && fx.len() == 0,
        },
        BoardMessage::Tick => every_session(before, Message::Tick, after, fx),
        BoardMessage::AnimTick => every_session(before, Message::AnimTick, after, fx),
        BoardMessage::New => if before.seq < u64::MAX {
            &&& after.seq == before.seq + 1
            &&& after.sessions@.len() == before.sessions@.len() + 1
            &&& after.sessions@.drop_last() == before.sessions@
            &&& after.sessions@.last().id == before.seq + 1
            &&& fresh_of(after.sessions@.last().state, before.sessions@[before.active as int].state)
            &&& after.active == before.sessions@.len()
            &&& fx.len() == 0
        } else {
            after.sessions == before.sessions && after.active == before.active && after.seq == before.seq
                && fx.len() == 0
        },
    }
}

/// Where the session with this id is.
pub open spec fn find(s: Seq<Slot>, id: u64) -> Option<int> {
    if exists|j: int| 0 <= j < s.len() && s[j].id == id {
        Some(choose|j: int| 0 <= j < s.len() && s[j].id == id)
    } else {
        None
    }
}

/// Every session has taken `m` (a tick), told which checkouts the others
/// hold; each effect carries the id of the session that asked for it.
pub open spec fn every_session(before: Board, m: Message, after: Board, fx: Seq<(u64, Effect)>) -> bool {
    &&& after.sessions@.len() == before.sessions@.len()
    &&& ids(after.sessions@) == ids(before.sessions@)
    &&& after.active == before.active && after.seq == before.seq
    &&& forall|i: int|
        0 <= i < before.sessions@.len() ==> exists|e: Seq<Effect>|
            updated(
                before.sessions@[i].state,
                busy_list(before.sessions@, i),
                m,
                #[trigger] after.sessions@[i].state,
                e,
            )
    &&& forall|k: int| 0 <= k < fx.len() ==> ids(before.sessions@).contains(#[trigger] fx[k].0)
}

/// The sessions, every one given rules that read as `rules` do.
fn share_rules(sessions: Vec<Slot>, rules: &Vec<(String, Vec<String>)>) -> (r: Vec<Slot>)
    ensures
        r@.len() == sessions@.len(),
        forall|q: int|
            0 <= q < r@.len() ==> {
                &&& (#[trigger] r@[q]).id == sessions@[q].id
                &&& same_but_rules(r@[q].state, sessions@[q].state)
                &&& forall|k: Seq<char>|
                    #[trigger] rules_for(r@[q].state.allowlist@, k) == rules_for(rules@, k)
            },
{
    let mut out: Vec<Slot> = Vec::new();
    let mut rest = sessions;
    let ghost all = rest@;
    while rest.len() > 0
        invariant
            out@.len() + rest@.len() == all.len(),
            rest@ == all.skip(out@.len() as int),
            forall|q: int|
                0 <= q < out@.len() ==> {
                    &&& (#[trigger] out@[q]).id == all[q].id
                    &&& same_but_rules(out@[q].state, all[q].state)
                    &&& forall|k: Seq<char>|
                        #[trigger] rules_for(out@[q].state.allowlist@, k) == rules_for(rules@, k)
                },
        decreases rest@.len(),
    {
        let ghost r0 = rest@;
        let slot = rest.remove(0);
        assert(rest@ =~= all.skip(out@.len() as int + 1));
        let allowlist = copy_allowlist(rules);
        let fixed = with_rules(slot.state, allowlist);
        out.push(Slot { id: slot.id, state: fixed });
    }
    out
}

fn with_rules(st: State, allowlist: Vec<(String, Vec<String>)>) -> (r: State)
    ensures
        r.allowlist == allowlist,
        same_but_rules(r, st),
{
    let r = State { allowlist, ..st };
    proof {
        reveal(same_but_rules);
    }
    r
}

/// `a` is `b` but for its saved rules.
#[verifier::opaque]
pub open spec fn same_but_rules(a: State, b: State) -> bool {
    a == (State { allowlist: a.allowlist, ..b })
}

/// A session taking one message: its effects tagged with its id.
fn run_slot(slot: Slot, busy: &Vec<String>, m: Message) -> (r: (Slot, Vec<(u64, Effect)>))
    ensures
        r.0.id == slot.id,
        updated(slot.state, crate::text::texts(busy@), m, r.0.state, untag(r.1@)),
        forall|k: int| 0 <= k < r.1@.len() ==> (#[trigger] r.1@[k]).0 == slot.id,
{
    let id = slot.id;
    let (out, e) = slot.state.step(busy, m);
    let ghost ev = e@;
    let fx = tag(id, e);
    assert(untag(fx@) =~= ev);
    (Slot { id, state: out }, fx)
}

proof fn lemma_reinsert(before: Seq<Slot>, i: int, out: Slot)
    requires
        0 <= i < before.len(),
        out.id == before[i].id,
    ensures
        ({
            let after = before.remove(i).insert(i, out);
            &&& after.len() == before.len()
            &&& after[i] == out
            &&& forall|j: int| 0 <= j < after.len() && j != i ==> #[trigger] after[j] == before[j]
            &&& ids(after) == ids(before)
        }),
{
    let after = before.remove(i).insert(i, out);
    assert forall|j: int| 0 <= j < after.len() && j != i implies #[trigger] after[j] == before[j] by {}
    assert(ids(after) =~= ids(before)) by {
        assert forall|j: int| 0 <= j < after.len() implies ids(after)[j] == ids(before)[j] by {
            if j != i {
                assert(after[j] == before[j]);
            }
        }
    }
}

proof fn lemma_reinsert_shared(before: Seq<Slot>, i: int, shared: Seq<Slot>, out: Slot, rules: Seq<(String, Vec<String>)>)
    requires
        0 <= i < before.len(),
        out.id == before[i].id,
        shared.len() == before.remove(i).len(),
        forall|q: int|
            0 <= q < shared.len() ==> {
                &&& (#[trigger] shared[q]).id == before.remove(i)[q].id
                &&& same_but_rules(shared[q].state, before.remove(i)[q].state)
                &&& forall|k: Seq<char>| #[trigger] rules_for(shared[q].state.allowlist@, k) == rules_for(rules, k)
            },
    ensures
        ({
            let after = shared.insert(i, out);
            &&& after.len() == before.len()
            &&& after[i] == out
            &&& ids(after) == ids(before)
            &&& forall|j: int|
                0 <= j < after.len() && j != i ==> {
                    &&& same_but_rules((#[trigger] after[j]).state, before[j].state)
                    &&& forall|k: Seq<char>| #[trigger] rules_for(after[j].state.allowlist@, k) == rules_for(rules, k)
                }
        }),
{
    let after = shared.insert(i, out);
    let rem = before.remove(i);
    assert forall|j: int|
        0 <= j < after.len() && j != i implies {
            &&& same_but_rules((#[trigger] after[j]).state, before[j].state)
            &&& forall|k: Seq<char>| #[trigger] rules_for(after[j].state.allowlist@, k) == rules_for(rules, k)
        } by {
        let q = if j < i { j } else { j - 1 };
        assert(after[j] == shared[q]);
        assert(rem[q] == before[j]);
    }
    assert(ids(after) =~= ids(before)) by {
        assert forall|j: int| 0 <= j < after.len() implies ids(after)[j] == ids(before)[j] by {
            if j != i {
                let q = if j < i { j } else { j - 1 };
                assert(after[j] == shared[q]);
                assert(rem[q] == before[j]);
            }
        }
    }
}

impl Board {
    /// Hand `m` to the session at `i`.
    fn dispatch(&mut self, i: usize, m: Message) -> (fx: Vec<(u64, Effect)>)
        requires
            old(self).wf(),
            i < old(self).sessions@.len(),
        ensures
            final(self).wf(),
            final(self).rows == old(self).rows,
            dispatched(*old(self), i as int, m, *final(self), fx@),
    {
        let ghost before = self.sessions@;
        let busy = busy_for(&self.sessions, i);
        let share = match &m {
            Message::AlwaysAllow => true,
            _ => false,
        };
        let slot = self.sessions.remove(i);
        let (out, fx) = run_slot(slot, &busy, m);
        if share {
            let rules = copy_allowlist(&out.state.allowlist);
            let mut others: Vec<Slot> = Vec::new();
            std::mem::swap(&mut others, &mut self.sessions);
            let ghost rem = others@;
            let mut shared = share_rules(others, &rules);
            let ghost sh = shared@;
            let ghost o = out;
            shared.insert(i, out);
            self.sessions = shared;
            proof {
                lemma_reinsert_shared(before, i as int, sh, o, rules@);
            }
        } else {
            let ghost o = out;
            self.sessions.insert(i, out);
            proof {
                lemma_reinsert(before, i as int, o);
            }
        }
        proof {
            assert forall|q: int| 0 <= q < self.sessions@.len() implies (#[trigger] self.sessions@[q]).id
                <= self.seq by {
                assert(ids(self.sessions@)[q] == ids(before)[q]);
            }
        }
        fx
    }
}


impl Board {
    fn route(&mut self, msg: BoardMessage) -> (fx: Vec<(u64, Effect)>)
        requires
            old(self).wf(),
        ensures
            final(self).wf(),
            final(self).rows == old(self).rows,
            board_updated(*old(self), msg, *final(self), fx@),
    {
        match msg {
            BoardMessage::For(id, m) => match self.index_of(id) {
                Some(i) => {
                    proof {
                        lemma_find(self.sessions@, id, i as int);
                    }
                    self.dispatch(i, m)
                },
                None => {
                    proof {
                        lemma_find_none(self.sessions@, id);
                    }
                    Vec::new()
                },
            },
            BoardMessage::Active(m) => {
                let i = self.active;
                self.dispatch(i, m)
            },
            BoardMessage::Select(id) => {
                match self.index_of(id) {
                    Some(i) => {
                        proof {
                            lemma_find(self.sessions@, id, i as int);
                        }
                        self.active = i;
                    },
                    None => {
                        proof {
                            lemma_find_none(self.sessions@, id);
                        }
                    },
                }
                Vec::new()
            },
            BoardMessage::Close(id) => match self.index_of(id) {
                Some(i) => {
                    proof {
                        lemma_find(self.sessions@, id, i as int);
                    }
                    self.close(i)
                },
                None => {
                    proof {
                        lemma_find_none(self.sessions@, id);
                    }
                    Vec::new()
                },
            },
            BoardMessage::Tick => self.every(true),
            BoardMessage::AnimTick => self.every(false),
            BoardMessage::New => {
                if self.seq < u64::MAX {
                    let fresh = fresh_from(&self.sessions[self.active].state);
                    let ghost before = self.sessions@;
                    self.seq = self.seq + 1;
                    self.sessions.push(Slot { id: self.seq, state: fresh });
                    self.active = self.sessions.len() - 1;
                    proof {
                        assert(self.sessions@.drop_last() =~= before);
                        assert(ids(self.sessions@) =~= ids(before).push(self.seq));
                        assert(!ids(before).contains(self.seq)) by {
                            if ids(before).contains(self.seq) {
                                let j = choose|j: int| 0 <= j < ids(before).len() && ids(before)[j] == self.seq;
                                assert(before[j].id <= self.seq - 1);
                            }
                        }
                        assert forall|q: int| 0 <= q < self.sessions@.len() implies (#[trigger] self.sessions@[q]).id
                            <= self.seq by {
                            if q < before.len() {
                                assert(self.sessions@[q] == before[q]);
                            }
                        }
                    }
                }
                Vec::new()
            },
        }
    }
}


proof fn lemma_find(s: Seq<Slot>, id: u64, i: int)
    requires
        ids(s).no_duplicates(),
        0 <= i < s.len(),
        s[i].id == id,
    ensures
        find(s, id) == Some(i),
{
    assert(exists|j: int| 0 <= j < s.len() && s[j].id == id);
    let c = choose|j: int| 0 <= j < s.len() && s[j].id == id;
    if c != i {
        assert(ids(s)[c] == ids(s)[i]);
    }
}

proof fn lemma_find_none(s: Seq<Slot>, id: u64)
    requires
        forall|j: int| 0 <= j < s.len() ==> (#[trigger] s[j]).id != id,
    ensures
        find(s, id) is None,
{
}

/// A tick changes no session's hold on its checkout, nor its folder.
proof fn lemma_tick_keeps(st: State, busy: Seq<Seq<char>>, m: Message, out: State, e: Seq<Effect>)
    requires
        m is Tick || m is AnimTick,
        updated(st, busy, m, out, e),
    ensures
        out.sending == st.sending,
        out.pending == st.pending,
        out.root == st.root,
{
    if m is Tick {
        lemma_tick(st, busy, out, e);
    } else {
        lemma_anim(st, busy, out, e);
    }
}

proof fn lemma_tick(st: State, busy: Seq<Seq<char>>, out: State, e: Seq<Effect>)
    requires
        updated(st, busy, Message::Tick, out, e),
    ensures
        out.sending == st.sending,
        out.pending == st.pending,
        out.root == st.root,
{
    reveal(updated);
    assert(ticked(st, out, e));
}

proof fn lemma_anim(st: State, busy: Seq<Seq<char>>, out: State, e: Seq<Effect>)
    requires
        updated(st, busy, Message::AnimTick, out, e),
    ensures
        out.sending == st.sending,
        out.pending == st.pending,
        out.root == st.root,
{
    reveal(updated);
}

/// The checkouts held do not change while no session's hold or folder does.
proof fn lemma_busy_same(a: Seq<Slot>, b: Seq<Slot>, i: int)
    requires
        a.len() == b.len(),
        forall|j: int| 0 <= j < a.len() ==> holds_checkout(#[trigger] a[j].state) == holds_checkout(b[j].state)
            && a[j].state.root == b[j].state.root,
    ensures
        busy_list(a, i) == busy_list(b, i),
    decreases a.len(),
{
    if a.len() > 0 {
        let j = a.len() - 1;
        assert(holds_checkout(a[j].state) == holds_checkout(b[j].state));
        lemma_busy_same(a.drop_last(), b.drop_last(), i);
    }
}

impl Board {
    /// Stop the session at `i` and take it off the board.
    fn close(&mut self, i: usize) -> (fx: Vec<(u64, Effect)>)
        requires
            old(self).wf(),
            i < old(self).sessions@.len(),
        ensures
            final(self).wf(),
            final(self).rows == old(self).rows,
            closed_at(*old(self), i as int, *final(self), fx@),
    {
        let ghost before = *self;
        let fx = self.dispatch(i, Message::Stop);
        proof {
            let st = before.sessions@[i as int].state;
            let busy = busy_list(before.sessions@, i as int);
            reveal(updated);
            assert(settled(st, Message::Stop) == st);
            assert(handled(st, busy, Message::Stop, self.sessions@[i as int].state, untag(fx@)));
            assert(stopped_spec(st, self.sessions@[i as int].state, untag(fx@)));
            if !st.sending {
                assert(untag(fx@) =~= Seq::<Effect>::empty());
            }
            assert(ids(self.sessions@)[0] == ids(before.sessions@)[0]);
        }
        if self.sessions.len() == 1 {
            let fresh = fresh_from(&self.sessions[0].state);
            let id = self.sessions[0].id;
            let ghost mid = self.sessions@[0].state;
            self.sessions.set(0, Slot { id, state: fresh });
            self.active = 0;
            proof {
                assert(ids(self.sessions@) =~= ids(before.sessions@)) by {
                    assert(ids(self.sessions@)[0] == ids(before.sessions@)[0]);
                }
                assert(mid.root == before.sessions@[0].state.root);
            }
        } else {
            let ghost mid = self.sessions@;
            self.sessions.remove(i);
            proof {
                assert(self.sessions@ =~= before.sessions@.remove(i as int)) by {
                    assert forall|q: int| 0 <= q < self.sessions@.len() implies self.sessions@[q] == before.sessions@.remove(i as int)[q] by {
                        let qq = if q < i { q } else { q + 1 };
                        assert(mid[qq] == before.sessions@[qq]);
                    }
                }
                let bi = ids(before.sessions@);
                assert(ids(self.sessions@) =~= bi.remove(i as int));
                assert(ids(self.sessions@).no_duplicates()) by {
                    assert forall|a: int, b: int| 0 <= a < ids(self.sessions@).len() && 0 <= b < ids(self.sessions@).len() && a != b
                        implies ids(self.sessions@)[a] != ids(self.sessions@)[b] by {
                        let aa = if a < i { a } else { a + 1 };
                        let bb = if b < i { b } else { b + 1 };
                        assert(ids(self.sessions@)[a] == bi[aa]);
                        assert(ids(self.sessions@)[b] == bi[bb]);
                    }
                }
                assert forall|q: int| 0 <= q < self.sessions@.len() implies (#[trigger] self.sessions@[q]).id <= self.seq by {
                    let qq = if q < i { q } else { q + 1 };
                    assert(self.sessions@[q] == before.sessions@[qq]);
                }
            }
            if self.active > i {
                self.active = self.active - 1;
            } else if self.active >= self.sessions.len() {
                self.active = self.sessions.len() - 1;
            }
        }
        fx
    }

    /// Hand a tick to every session, in board order.
    fn every(&mut self, tick: bool) -> (fx: Vec<(u64, Effect)>)
        requires
            old(self).wf(),
        ensures
            final(self).wf(),
            final(self).rows == old(self).rows,
            every_session(*old(self), if tick { Message::Tick } else { Message::AnimTick }, *final(self), fx@),
    {
        let ghost before = *self;
        let ghost m = if tick { Message::Tick } else { Message::AnimTick };
        let mut fx: Vec<(u64, Effect)> = Vec::new();
        let mut i: usize = 0;
        while i < self.sessions.len()
            invariant
                self.wf(),
                self.rows == before.rows,
                m == (if tick { Message::Tick } else { Message::AnimTick }),
                self.sessions@.len() == before.sessions@.len(),
                ids(self.sessions@) == ids(before.sessions@),
                self.active == before.active && self.seq == before.seq,
                i <= self.sessions@.len(),
                forall|j: int|
                    0 <= j < i ==> exists|e: Seq<Effect>|
                        updated(before.sessions@[j].state, busy_list(before.sessions@, j), m, #[trigger] self.sessions@[j].state, e),
                forall|j: int| i <= j < self.sessions@.len() ==> #[trigger] self.sessions@[j] == before.sessions@[j],
                forall|j: int|
                    0 <= j < self.sessions@.len() ==> holds_checkout(#[trigger] self.sessions@[j].state)
                        == holds_checkout(before.sessions@[j].state) && self.sessions@[j].state.root
                        == before.sessions@[j].state.root,
                forall|k: int| 0 <= k < fx@.len() ==> ids(before.sessions@).contains(#[trigger] fx@[k].0),
            decreases self.sessions@.len() - i,
        {
            let ghost cur = *self;
            let m_exec = if tick {
                Message::Tick
            } else {
                Message::AnimTick
            };
            let mut f = self.dispatch(i, m_exec);
            proof {
                let ci = cur.sessions@[i as int];
                lemma_busy_same(cur.sessions@, before.sessions@, i as int);
                lemma_tick_keeps(ci.state, busy_list(cur.sessions@, i as int), m, self.sessions@[i as int].state, untag(f@));
                assert(ci == before.sessions@[i as int]);
                assert forall|k: int| 0 <= k < f@.len() implies ids(before.sessions@).contains(#[trigger] f@[k].0) by {
                    assert(ids(before.sessions@)[i as int] == ci.id);
                }
            }
            let ghost f0 = fx@;
            let ghost g0 = f@;
            fx.append(&mut f);
            proof {
                assert(fx@ =~= f0 + g0);
                assert forall|k: int| 0 <= k < fx@.len() implies ids(before.sessions@).contains(#[trigger] fx@[k].0) by {
                    if k < f0.len() {
                        assert(fx@[k] == f0[k]);
                    } else {
                        assert(fx@[k] == g0[k - f0.len()]);
                    }
                }
                assert forall|j: int|
                    0 <= j < i + 1 implies exists|e: Seq<Effect>|
                        updated(before.sessions@[j].state, busy_list(before.sessions@, j), m, #[trigger] self.sessions@[j].state, e) by {
                    if j < i {
                        assert(self.sessions@[j] == cur.sessions@[j]);
                    } else {
                        assert(updated(before.sessions@[j].state, busy_list(before.sessions@, j), m, self.sessions@[j].state, untag(g0)));
                    }
                }
            }
            i = i + 1;
        }
        fx
    }

    /// Take one message and say what should happen next, each effect tagged
    /// with the session that asked for it; the rows are made again.
    pub fn update(&mut self, msg: BoardMessage) -> (fx: Vec<(u64, Effect)>)
        requires
            old(self).wf(),
        ensures
            final(self).wf(),
            final(self).rows_fresh(),
            board_updated(*old(self), msg, Board { rows: old(self).rows, ..*final(self) }, fx@),
    {
        let fx = self.route(msg);
        let ghost mid = *self;
        self.refresh();
        assert(mid == (Board { rows: mid.rows, ..*self }));
        fx
    }
}

// ---------------------------------------------------------------------------
// Laws
// ---------------------------------------------------------------------------

/// No id is handed out twice: whatever a message does to a well-formed board,
/// the counter never goes back, and a session that was not on the board
/// before carries an id above every id handed out until then.
pub proof fn ids_are_never_reused(before: Board, msg: BoardMessage, after: Board, fx: Seq<(u64, Effect)>)
    requires
        before.wf(),
        board_updated(before, msg, after, fx),
    ensures
        after.seq >= before.seq,
        forall|j: int|
            0 <= j < after.sessions@.len() && !ids(before.sessions@).contains(
                #[trigger] after.sessions@[j].id,
            ) ==> after.sessions@[j].id > before.seq,
{
    assert forall|j: int|
        0 <= j < after.sessions@.len() && !ids(before.sessions@).contains(
            #[trigger] after.sessions@[j].id,
        ) implies after.sessions@[j].id > before.seq by {
        if j < before.sessions@.len() {
            assert(ids(before.sessions@)[j] == before.sessions@[j].id);
        }
        match msg {
            BoardMessage::For(id, m) => {
                if find(before.sessions@, id) is Some {
                    assert(ids(after.sessions@)[j] == after.sessions@[j].id);
                }
            },
            BoardMessage::Active(m) => {
                assert(ids(after.sessions@)[j] == after.sessions@[j].id);
            },
            BoardMessage::Close(id) => {
                match find(before.sessions@, id) {
                    Some(i) => {
                        if before.sessions@.len() == 1 {
                            assert(ids(before.sessions@)[0] == before.sessions@[0].id);
                        } else {
                            let k = if j < i { j } else { j + 1 };
                            assert(after.sessions@[j] == before.sessions@[k]);
                            assert(ids(before.sessions@)[k] == before.sessions@[k].id);
                        }
                    },
                    None => {},
                }
            },
            BoardMessage::Tick | BoardMessage::AnimTick => {
                assert(ids(after.sessions@)[j] == after.sessions@[j].id);
            },
            BoardMessage::New => {
                if before.seq < u64::MAX && j < before.sessions@.len() {
                    assert(after.sessions@.drop_last()[j] == after.sessions@[j]);
                    assert(ids(before.sessions@)[j] == before.sessions@[j].id);
                }
            },
            BoardMessage::Select(_) => {},
        }
    }
}

/// A message for a session that has been closed lands nowhere: it changes
/// no session and asks for nothing.
pub proof fn a_closed_session_hears_nothing(
    b0: Board,
    id: u64,
    b1: Board,
    fx1: Seq<(u64, Effect)>,
    m: Message,
    b2: Board,
    fx2: Seq<(u64, Effect)>,
)
    requires
        b0.wf(),
        b0.sessions@.len() > 1,
        find(b0.sessions@, id) is Some,
        board_updated(b0, BoardMessage::Close(id), b1, fx1),
        board_updated(b1, BoardMessage::For(id, m), b2, fx2),
    ensures
        forall|j: int| 0 <= j < b1.sessions@.len() ==> (#[trigger] b1.sessions@[j]).id != id,
        b2.sessions == b1.sessions,
        fx2.len() == 0,
{
    let i = find(b0.sessions@, id)->0;
    assert(b0.sessions@[i].id == id);
    assert forall|j: int| 0 <= j < b1.sessions@.len() implies (#[trigger] b1.sessions@[j]).id != id by {
        let k = if j < i { j } else { j + 1 };
        assert(b1.sessions@[j] == b0.sessions@[k]);
        assert(ids(b0.sessions@)[k] == b0.sessions@[k].id);
        assert(ids(b0.sessions@)[i] == b0.sessions@[i].id);
    }
}

} // verus!
