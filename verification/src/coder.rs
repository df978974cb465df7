//! Coder: the agent works on the open folder, and this module holds the
//! rules it works under — how much of `run_command` runs unasked, which saved
//! rule covers a command, what a transcript row says about a call — and the
//! session state those rules read.
use vstd::prelude::*;
use crate::coder_git::{Changes, Checkpoint};
use crate::json::{
    array_spec, bool_spec, compact, copy_json, get_spec, get_str, lemma_view_array, parse_json,
    parsed_json, str_spec, to_compact, views, Json, JsonV,
};
use crate::providers::{
    ids_of, model_options, model_options_spec, provider_ids, ProviderEntry,
};
use crate::text::{
    chars_of, contains_chars, contains_seq, debug_str, debug_text, first_n, is_blank,
    is_whitespace, is_ws, nat_text, push_all, push_str, push_u64, split_word, split_word_chars,
    starts_with_str, str_eq, string_of, take_chars, texts, trim, trim_chars, trim_start,
    trim_start_chars, trim_str, lemma_texts_push, lemma_texts_take_next,
};

verus! {

// ---------------------------------------------------------------------------
// Settings
// ---------------------------------------------------------------------------

/// How much planning happens before the tools come out.
#[derive(Debug, Clone, Copy, PartialEq, Eq, Structural)]
pub enum PlanMode {
    /// Straight to the tool loop.
    Off,
    /// Plan, then carry it out in the same turn.
    Inline,
    /// Plan in a tool-free turn, stop, and wait for the user to run it.
    Gate,
}

impl PlanMode {
    pub open spec fn label_spec(self) -> Seq<char> {
        match self {
            PlanMode::Off => "No plan"@,
            PlanMode::Inline => "Plan first"@,
            PlanMode::Gate => "Plan gate"@,
        }
    }

    pub fn label(self) -> (r: &'static str)
        ensures
            r@ == self.label_spec(),
    {
        match self {
            PlanMode::Off => "No plan",
            PlanMode::Inline => "Plan first",
            PlanMode::Gate => "Plan gate",
        }
    }
}

/// How far the agent gets on `run_command` without a person in the loop.
#[derive(Debug, Clone, Copy, PartialEq, Eq, Structural)]
pub enum Autonomy {
    /// `run_command` is refused before it ever reaches a card.
    Off,
    /// Every command is a card someone reads.
    Ask,
    /// A command matching a saved rule runs; everything else is still a card.
    Allowlist,
    /// Every command runs.
    Auto,
}

impl Autonomy {
    pub open spec fn label_spec(self) -> Seq<char> {
        match self {
            Autonomy::Off => "No commands"@,
            Autonomy::Ask => "Ask"@,
            Autonomy::Allowlist => "Allowlist"@,
            Autonomy::Auto => "Auto"@,
        }
    }

    pub fn label(self) -> (r: &'static str)
        ensures
            r@ == self.label_spec(),
    {
        match self {
            Autonomy::Off => "No commands",
            Autonomy::Ask => "Ask",
            Autonomy::Allowlist => "Allowlist",
            Autonomy::Auto => "Auto",
        }
    }

    /// Whether `run_command` is offered to the model at all.
    pub fn allows_commands(self) -> (r: bool)
        ensures
            r == (self != Autonomy::Off),
    {
        !matches!(self, Autonomy::Off)
    }
}

// ---------------------------------------------------------------------------
// The allowlist
// ---------------------------------------------------------------------------

/// A character that on its own is shell syntax no rule can vouch for.
pub open spec fn is_operator_char(c: char) -> bool {
    c == ';' || c == '&' || c == '|' || c == '`' || c == '>' || c == '<' || c == '\n' || c == '\r'
}

/// Whether the command carries shell syntax: one of `; & | ` > < \n \r`,
/// or a `$(`.
pub open spec fn has_operator(c: Seq<char>) -> bool {
    exists|i: int|
        0 <= i < c.len() && (is_operator_char(#[trigger] c[i]) || (c[i] == '$' && i + 1 < c.len()
            && c[i + 1] == '('))
}

/// Whether one saved rule covers an already trimmed command: the trimmed
/// rule is not empty and is the command's head, ending on a word boundary.
pub open spec fn rule_covers(rule: Seq<char>, c: Seq<char>) -> bool {
    let r = trim(rule);
    &&& r.len() > 0
    &&& r.is_prefix_of(c)
    &&& (c.len() == r.len() || is_ws(c[r.len() as int]))
}

/// Whether a saved rule covers `command`.
pub open spec fn allowed_spec(rules: Seq<String>, command: Seq<char>) -> bool {
    let c = trim(command);
    !has_operator(c) && exists|i: int| 0 <= i < rules.len() && rule_covers(#[trigger] rules[i]@, c)
}

fn has_operator_chars(c: &[char]) -> (r: bool)
    ensures
        r == has_operator(c@),
{
    let mut i: usize = 0;
    while i < c.len()
        invariant
            i <= c@.len(),
            forall|j: int|
                0 <= j < i ==> !(is_operator_char(#[trigger] c@[j]) || (c@[j] == '$' && j + 1
                    < c@.len() && c@[j + 1] == '(')),
        decreases c@.len() - i,
    {
        let ch = c[i];
        if ch == ';' || ch == '&' || ch == '|' || ch == '`' || ch == '>' || ch == '<' || ch == '\n'
            || ch == '\r' || (ch == '$' && i + 1 < c.len() && c[i + 1] == '(') {
            assert(is_operator_char(c@[i as int]) || (c@[i as int] == '$' && i + 1 < c@.len()
                && c@[i + 1] == '('));
            return true;
        }
        i = i + 1;
    }
    false
}

fn covers(rule: &str, c: &[char]) -> (r: bool)
    ensures
        r == rule_covers(rule@, c@),
{
    let rv = chars_of(rule);
    let r = trim_chars(&rv);
    if r.len() == 0 || r.len() > c.len() {
        return false;
    }
    let mut i: usize = 0;
    while i < r.len()
        invariant
            r@ == trim(rule@),
            0 < r@.len() <= c@.len(),
            i <= r@.len(),
            forall|j: int| 0 <= j < i ==> r@[j] == c@[j],
        decreases r@.len() - i,
    {
        if r[i] != c[i] {
            return false;
        }
        i = i + 1;
    }
    assert(r@.is_prefix_of(c@)) by {
        assert(r@ =~= c@.subrange(0, r@.len() as int));
    }
    r.len() == c.len() || is_whitespace(c[r.len()])
}

/// Whether a saved rule covers this command.
///
/// Prefix match on a word boundary — `cargo test` allows `cargo test --lib`
/// and not `cargo testbed` — and never on a command with shell operators in
/// it: `cargo test; rm -rf /` starts with `cargo test` and is not that command.
pub fn allowed_by_rule(rules: &[String], command: &str) -> (r: bool)
    ensures
        r == allowed_spec(rules@, command@),
{
    let cv = chars_of(command);
    let c = trim_chars(&cv);
    if has_operator_chars(&c) {
        return false;
    }
    let mut i: usize = 0;
    while i < rules.len()
        invariant
            c@ == trim(command@),
            !has_operator(c@),
            i <= rules@.len(),
            forall|j: int| 0 <= j < i ==> !rule_covers(#[trigger] rules@[j]@, c@),
        decreases rules@.len() - i,
    {
        if covers(rules[i].as_str(), &c) {
            assert(rule_covers(rules@[i as int]@, c@));
            return true;
        }
        i = i + 1;
    }
    false
}

/// The first two whitespace-separated words of a command.
pub open spec fn two_words(s: Seq<char>) -> (Seq<char>, Seq<char>) {
    let (w1, rest) = split_word(trim_start(s));
    let (w2, _) = split_word(trim_start(rest));
    (w1, w2)
}

/// Whether the second word reads as a verb rather than an argument: not a
/// flag, not a path, not a file name.
pub open spec fn is_verb(w: Seq<char>) -> bool {
    &&& w.len() > 0
    &&& w[0] != '-'
    &&& !w.contains('/')
    &&& !w.contains('\\')
    &&& !w.contains('.')
}

/// The rule **Always allow** writes for a command.
pub open spec fn rule_for_spec(command: Seq<char>) -> Seq<char> {
    let (w1, w2) = two_words(command);
    if w1.len() == 0 {
        Seq::empty()
    } else if is_verb(w2) {
        w1 + seq![' '] + w2
    } else {
        w1
    }
}

fn contains_char(v: &[char], c: char) -> (r: bool)
    ensures
        r == v@.contains(c),
{
    let mut i: usize = 0;
    while i < v.len()
        invariant
            i <= v@.len(),
            forall|j: int| 0 <= j < i ==> v@[j] != c,
        decreases v@.len() - i,
    {
        if v[i] == c {
            return true;
        }
        i = i + 1;
    }
    false
}

/// The rule **Always allow** writes for a command: the program and its
/// subcommand (`cargo test`, `npm run`), or the program alone when the second
/// word is an argument rather than a verb — a flag, a path, a file name.
pub fn rule_for(command: &str) -> (r: String)
    ensures
        r@ == rule_for_spec(command@),
{
    let v = chars_of(command);
    let t = trim_start_chars(&v);
    let (w1, rest) = split_word_chars(&t);
    let u = trim_start_chars(&rest);
    let (w2, _tail) = split_word_chars(&u);
    if w1.len() == 0 {
        return String::new();
    }
    let verb = w2.len() > 0 && w2[0] != '-' && !contains_char(&w2, '/') && !contains_char(
        &w2,
        '\\',
    ) && !contains_char(&w2, '.');
    if verb {
        let mut out = w1.clone();
        out.push(' ');
        push_all(&mut out, &w2);
        assert(out@ =~= w1@ + seq![' '] + w2@);
        string_of(&out)
    } else {
        string_of(&w1)
    }
}

/// Whether the command's first two words are one space apart.
pub open spec fn single_spaced_head(t: Seq<char>) -> bool {
    let k = crate::text::first_ws(t);
    k < t.len() ==> t[k] == ' ' && k + 1 < t.len() && !is_ws(t[k + 1])
}

proof fn lemma_trim_of_word(x: Seq<char>)
    requires
        x.len() > 0,
        !is_ws(x[0]),
        !is_ws(x.last()),
    ensures
        trim(x) == x,
{
    crate::text::lemma_trim_start_skip(x, 0);
    assert(x.skip(0) =~= x);
    crate::text::lemma_trim_end_take(x, x.len() as int);
    assert(x.take(x.len() as int) =~= x);
}

proof fn lemma_head_covers(t: Seq<char>, q: int)
    requires
        0 < q <= t.len(),
        !is_ws(t[0]),
        !is_ws(t[q - 1]),
        q == t.len() || is_ws(t[q]),
    ensures
        rule_covers(t.take(q), t),
{
    let r = t.take(q);
    assert(r[0] == t[0]);
    assert(r.last() == t[q - 1]);
    lemma_trim_of_word(r);
}

/// What **Always allow** saves from a command allows that command from then
/// on: any operator-free command whose first two words are one space apart.
pub proof fn a_saved_rule_allows_its_own_command(command: Seq<char>, rule: String)
    requires
        trim(command).len() > 0,
        !has_operator(trim(command)),
        single_spaced_head(trim(command)),
        rule@ == rule_for_spec(command),
    ensures
        allowed_spec(seq![rule], command),
{
    let (a, b) = crate::text::lemma_trim_bounds(command);
    let u = trim_start(command);
    let t = trim(command);
    let n = t.len() as int;
    assert(n == b - a);
    assert forall|j: int| 0 <= j < n implies #[trigger] u[j] == t[j] by {
        assert(u[j] == command[a + j]);
        assert(t[j] == command[a + j]);
    }
    assert forall|j: int| n <= j < u.len() implies is_ws(#[trigger] u[j]) by {
        assert(u[j] == command[a + j]);
    }
    assert(!is_ws(t[0])) by {
        assert(t[0] == command[a]);
    }
    assert(!is_ws(t[n - 1])) by {
        assert(t[n - 1] == command[b - 1]);
    }
    crate::text::lemma_first_ws_range(t);
    let k1 = crate::text::first_ws(t);
    assert(k1 > 0);
    let q: int = if k1 == n {
        assert forall|j: int| 0 <= j < n implies !is_ws(#[trigger] u[j]) by {
            assert(u[j] == t[j]);
        }
        crate::text::lemma_first_ws(u, n);
        let rest = split_word(u).1;
        assert forall|j: int| 0 <= j < rest.len() implies is_ws(#[trigger] rest[j]) by {
            assert(rest[j] == u[n + 1 + j]);
        }
        crate::text::lemma_trim_start_skip(rest, rest.len() as int);
        assert(trim_start(rest) =~= Seq::<char>::empty());
        assert(split_word(u).0 =~= t.take(n));
        assert(two_words(command).1.len() == 0);
        n
    } else {
        assert(k1 + 1 < n);
        assert forall|j: int| 0 <= j < k1 implies !is_ws(#[trigger] u[j]) by {
            assert(u[j] == t[j]);
        }
        assert(u[k1] == t[k1]);
        crate::text::lemma_first_ws(u, k1);
        let rest = u.skip(k1 + 1);
        assert(split_word(u) == (u.take(k1), rest));
        assert(rest[0] == t[k1 + 1]);
        crate::text::lemma_trim_start_skip(rest, 0);
        assert(rest.skip(0) =~= rest);
        let tt = t.skip(k1 + 1);
        crate::text::lemma_first_ws_range(tt);
        let d = crate::text::first_ws(tt);
        assert(tt[0] == t[k1 + 1]);
        assert(d > 0);
        assert forall|j: int| 0 <= j < d implies !is_ws(#[trigger] rest[j]) by {
            assert(rest[j] == u[k1 + 1 + j]);
            assert(tt[j] == t[k1 + 1 + j]);
        }
        if d < tt.len() {
            assert(rest[d] == u[k1 + 1 + d]);
            assert(tt[d] == t[k1 + 1 + d]);
        } else if d < rest.len() {
            assert(rest[d] == u[k1 + 1 + d]);
        }
        crate::text::lemma_first_ws(rest, d);
        let w2 = split_word(rest).0;
        assert(w2 =~= t.subrange(k1 + 1, k1 + 1 + d));
        assert(split_word(u).0 =~= t.take(k1));
        if is_verb(w2) {
            assert(t.take(k1) + seq![' '] + w2 =~= t.take(k1 + 1 + d));
            k1 + 1 + d
        } else {
            k1
        }
    };
    assert(rule@ =~= t.take(q));
    if q == k1 && k1 < n {
        assert(!is_ws(t[k1 - 1]));
    } else {
        assert(!is_ws(t[q - 1])) by {
            if q < n {
                let tt = t.skip(k1 + 1);
                let d = crate::text::first_ws(tt);
                assert(tt[d - 1] == t[q - 1]);
            }
        }
        if q < n {
            let tt = t.skip(k1 + 1);
            let d = crate::text::first_ws(tt);
            assert(tt[d] == t[q]);
        }
    }
    lemma_head_covers(t, q);
    assert(seq![rule][0]@ == rule@);
}

// ---------------------------------------------------------------------------
// Turns and rows
// ---------------------------------------------------------------------------

/// What the turn in flight is for.
#[derive(Debug, Clone, Copy, PartialEq, Eq, Structural)]
pub enum TurnKind {
    /// The ordinary turn: tools, a checkpoint, and the queue drains behind it.
    Work,
    /// The tool-free first turn of a plan-gated session; its answer lands in the plan card.
    Plan,
    /// A tool-free read of what the last turn changed.
    Review,
    /// A tool-free summary for a fresh session to carry on from.
    Handoff,
}

impl TurnKind {
    /// Whether this turn runs without tools.
    pub fn tool_free(self) -> (r: bool)
        ensures
            r == (self != TurnKind::Work),
    {
        !matches!(self, TurnKind::Work)
    }
}

/// One line of the agent's own checklist, as `update_todos` posted it.
#[derive(Debug, PartialEq, Eq)]
pub struct Todo {
    pub text: String,
    pub done: bool,
}

impl View for Todo {
    type V = (Seq<char>, bool);

    open spec fn view(&self) -> (Seq<char>, bool) {
        (self.text@, self.done)
    }
}

/// The views of a list of checklist lines.
pub open spec fn todo_views(s: Seq<Todo>) -> Seq<(Seq<char>, bool)> {
    s.map_values(|t: Todo| t@)
}

/// At most this many lines in a posted checklist.
pub const MAX_TODOS: usize = 20;

/// At most this many characters in one line of it.
pub const MAX_TODO_CHARS: usize = 120;

/// Which list the left sidebar is showing.
#[derive(Debug, Clone, Copy, PartialEq, Eq, Structural)]
pub enum Pane {
    Sessions,
    Files,
    Checkpoints,
}

/// Which panel the bottom dock is showing.
#[derive(Debug, Clone, Copy, PartialEq, Eq, Structural)]
pub enum Dock {
    Terminal,
    File,
    Diff,
}

/// What a session is doing, for the board's rows.
#[derive(Debug, Clone, Copy, PartialEq, Eq, Structural)]
pub enum Status {
    Running,
    /// Parked on the approval card or the plan gate: waiting on a person.
    Awaiting,
    Idle,
}

/// One row of the transcript. A tool row's result is `None` while it runs,
/// `Ok` with the model's own view of the outcome, or `Err` for a call that
/// never produced one.
#[derive(Debug)]
pub enum Turn {
    User(String),
    Assistant(String),
    Tool { label: String, result: Option<Result<String, String>> },
}

/// The mathematical value of a [`Turn`].
pub enum TurnV {
    User(Seq<char>),
    Assistant(Seq<char>),
    Tool(Seq<char>, Option<Result<Seq<char>, Seq<char>>>),
}

pub open spec fn outcome_view(r: Option<Result<String, String>>) -> Option<
    Result<Seq<char>, Seq<char>>,
> {
    match r {
        Some(Ok(t)) => Some(Ok(t@)),
        Some(Err(t)) => Some(Err(t@)),
        None => None,
    }
}

impl View for Turn {
    type V = TurnV;

    open spec fn view(&self) -> TurnV {
        match self {
            Turn::User(t) => TurnV::User(t@),
            Turn::Assistant(t) => TurnV::Assistant(t@),
            Turn::Tool { label, result } => TurnV::Tool(label@, outcome_view(*result)),
        }
    }
}

/// The views of a transcript.
pub open spec fn turn_views(s: Seq<Turn>) -> Seq<TurnV> {
    s.map_values(|t: Turn| t@)
}

pub proof fn lemma_turn_views_update(s: Seq<Turn>, i: int, t: Turn)
    requires
        0 <= i < s.len(),
    ensures
        turn_views(s.update(i, t)) == turn_views(s).update(i, t@),
{
    assert(turn_views(s.update(i, t)) =~= turn_views(s).update(i, t@));
}

/// Whether a row is a tool call still waiting for its result.
pub open spec fn is_open(t: TurnV) -> bool {
    t matches TurnV::Tool(_, None)
}

/// Index of the oldest row still waiting for a result.
pub open spec fn first_open(ts: Seq<TurnV>) -> Option<int>
    decreases ts.len(),
{
    if ts.len() == 0 {
        None
    } else if is_open(ts[0]) {
        Some(0)
    } else {
        match first_open(ts.drop_first()) {
            Some(i) => Some(i + 1),
            None => None,
        }
    }
}

pub proof fn lemma_first_open(ts: Seq<TurnV>)
    ensures
        match first_open(ts) {
            Some(i) => 0 <= i < ts.len() && is_open(ts[i]) && forall|j: int|
                0 <= j < i ==> !is_open(#[trigger] ts[j]),
            None => forall|j: int| 0 <= j < ts.len() ==> !is_open(#[trigger] ts[j]),
        },
    decreases ts.len(),
{
    if ts.len() > 0 && !is_open(ts[0]) {
        lemma_first_open(ts.drop_first());
        assert forall|j: int| 1 <= j < ts.len() implies #[trigger] ts[j] == ts.drop_first()[j
            - 1] by {}
    }
}

pub proof fn lemma_first_open_at(ts: Seq<TurnV>, i: int)
    requires
        0 <= i <= ts.len(),
        forall|j: int| 0 <= j < i ==> !is_open(#[trigger] ts[j]),
        i == ts.len() || is_open(ts[i]),
    ensures
        first_open(ts) == (if i == ts.len() {
            None::<int>
        } else {
            Some(i)
        }),
    decreases i,
{
    if i > 0 {
        let t = ts.drop_first();
        assert(!is_open(ts[0]));
        assert forall|j: int| 0 <= j < i - 1 implies !is_open(#[trigger] t[j]) by {
            assert(t[j] == ts[j + 1]);
        }
        if i < ts.len() {
            assert(t[i - 1] == ts[i]);
        }
        lemma_first_open_at(t, i - 1);
    }
}

/// The transcript with `r` attached to the oldest row still waiting for a
/// result; unchanged when none is waiting.
pub open spec fn fill_open(ts: Seq<TurnV>, r: Result<Seq<char>, Seq<char>>) -> Seq<TurnV> {
    match first_open(ts) {
        Some(i) => match ts[i] {
            TurnV::Tool(l, _) => ts.update(i, TurnV::Tool(l, Some(r))),
            _ => ts,
        },
        None => ts,
    }
}

/// Results land in call order: with two rows waiting, the first result
/// answers the older row and the second the newer, and no other row changes.
pub proof fn results_answer_rows_in_call_order(
    ts: Seq<TurnV>,
    i: int,
    j: int,
    r1: Result<Seq<char>, Seq<char>>,
    r2: Result<Seq<char>, Seq<char>>,
)
    requires
        0 <= i < j < ts.len(),
        is_open(ts[i]),
        is_open(ts[j]),
        forall|k: int| 0 <= k < j && k != i ==> !is_open(#[trigger] ts[k]),
    ensures
        fill_open(fill_open(ts, r1), r2) == ts.update(i, TurnV::Tool(ts[i]->Tool_0, Some(r1))).update(
            j,
            TurnV::Tool(ts[j]->Tool_0, Some(r2)),
        ),
{
    lemma_first_open_at(ts, i);
    let once = fill_open(ts, r1);
    assert(once == ts.update(i, TurnV::Tool(ts[i]->Tool_0, Some(r1))));
    assert forall|k: int| 0 <= k < j implies !is_open(#[trigger] once[k]) by {
        if k != i {
            assert(once[k] == ts[k]);
        }
    }
    assert(once[j] == ts[j]);
    lemma_first_open_at(once, j);
}

/// Every row still waiting closed with `Err(reason)`; everything else as it was.
pub open spec fn close_open(ts: Seq<TurnV>, reason: Seq<char>) -> Seq<TurnV> {
    Seq::new(
        ts.len(),
        |i: int|
            match ts[i] {
                TurnV::Tool(l, None) => TurnV::Tool(l, Some(Err(reason))),
                t => t,
            },
    )
}

/// Index of the oldest row still waiting for a result.
pub fn find_open(turns: &Vec<Turn>) -> (r: Option<usize>)
    ensures
        match r {
            Some(k) => k < turns@.len() && first_open(turn_views(turns@)) == Some(k as int),
            None => first_open(turn_views(turns@)) is None,
        },
{
    let mut i: usize = 0;
    while i < turns.len()
        invariant
            i <= turns@.len(),
            forall|j: int| 0 <= j < i ==> !is_open(#[trigger] turn_views(turns@)[j]),
        decreases turns@.len() - i,
    {
        let open = match &turns[i] {
            Turn::Tool { result: None, .. } => true,
            _ => false,
        };
        if open {
            proof {
                lemma_first_open_at(turn_views(turns@), i as int);
            }
            return Some(i);
        }
        i = i + 1;
    }
    proof {
        lemma_first_open_at(turn_views(turns@), i as int);
    }
    None
}

/// Attach `result` to the oldest row still waiting for one. Calls run in
/// order and each result comes back before the next call is issued, so the
/// oldest unanswered row is the right one.
pub fn resolve_open(turns: &mut Vec<Turn>, result: Result<String, String>)
    ensures
        turn_views(final(turns)@) == fill_open(
            turn_views(old(turns)@),
            match result {
                Ok(t) => Ok(t@),
                Err(t) => Err(t@),
            },
        ),
{
    match find_open(turns) {
        Some(i) => {
            let label = match &turns[i] {
                Turn::Tool { label, .. } => label.clone(),
                _ => String::new(),
            };
            let ghost before = turn_views(turns@);
            let ghost old_turns = turns@;
            let ghost l = label@;
            let row = Turn::Tool { label, result: Some(result) };
            proof {
                lemma_first_open(before);
                assert(turn_views(old_turns)[i as int] == old_turns[i as int]@);
                assert(before[i as int] == TurnV::Tool(l, None));
                lemma_turn_views_update(old_turns, i as int, row);
            }
            turns.set(i, row);
            proof {
                assert(turn_views(turns@) =~= fill_open(
                    before,
                    match result {
                        Ok(t) => Ok(t@),
                        Err(t) => Err(t@),
                    },
                ));
            }
        },
        None => {},
    }
}

/// Close every row still waiting, with `reason` as its error.
pub fn close_open_rows(turns: &mut Vec<Turn>, reason: &str)
    ensures
        turn_views(final(turns)@) == close_open(turn_views(old(turns)@), reason@),
{
    let ghost before = turn_views(turns@);
    let mut i: usize = 0;
    while i < turns.len()
        invariant
            i <= turns@.len(),
            turns@.len() == before.len(),
            forall|j: int|
                0 <= j < i ==> #[trigger] turn_views(turns@)[j] == close_open(before, reason@)[j],
            forall|j: int| i <= j < turns@.len() ==> #[trigger] turn_views(turns@)[j] == before[j],
        decreases turns@.len() - i,
    {
        let label = match &turns[i] {
            Turn::Tool { label, result: None } => Some(label.clone()),
            _ => None,
        };
        let ghost old_turns = turns@;
        match label {
            Some(l) => {
                let row = Turn::Tool { label: l, result: Some(Err(reason.to_owned())) };
                proof {
                    lemma_turn_views_update(old_turns, i as int, row);
                }
                turns.set(i, row);
            },
            None => {},
        }
        proof {
            assert(turn_views(old_turns)[i as int] == old_turns[i as int]@);
            assert(turn_views(turns@)[i as int] == turns@[i as int]@);
            assert(turn_views(turns@)[i as int] == close_open(before, reason@)[i as int]);
        }
        i = i + 1;
    }
    assert(turn_views(turns@) =~= close_open(before, reason@));
}

// ---------------------------------------------------------------------------
// Reading calls
// ---------------------------------------------------------------------------

/// The text at `key`, or nothing when it is missing or not a string.
pub open spec fn arg_text(args: JsonV, key: Seq<char>) -> Seq<char> {
    match str_spec(get_spec(args, key)) {
        Some(t) => t,
        None => Seq::empty(),
    }
}

/// `args.get(key).and_then(as_str).unwrap_or("")`.
fn arg<'a>(args: &'a Json, key: &str) -> (r: &'a str)
    ensures
        r@ == arg_text(args@, key@),
{
    match get_str(args, key) {
        Some(t) => t,
        None => {
            proof {
                reveal_strlit("");
            }
            ""
        },
    }
}

/// One posted checklist line: its text trimmed and capped, `done` defaulting
/// to false; nothing for an entry without text.
pub open spec fn todo_of(item: JsonV) -> Option<(Seq<char>, bool)> {
    match str_spec(get_spec(item, "text"@)) {
        Some(t) => if trim(t).len() == 0 {
            None
        } else {
            Some(
                (
                    first_n(trim(t), MAX_TODO_CHARS as nat),
                    match bool_spec(get_spec(item, "done"@)) {
                        Some(b) => b,
                        None => false,
                    },
                ),
            )
        },
        None => None,
    }
}

/// The lines of a list of posted entries, in order.
pub open spec fn todos_of(items: Seq<JsonV>) -> Seq<(Seq<char>, bool)>
    decreases items.len(),
{
    if items.len() == 0 {
        Seq::empty()
    } else {
        let t = todos_of(items.drop_last());
        match todo_of(items.last()) {
            Some(x) => t.push(x),
            None => t,
        }
    }
}

/// At most [`MAX_TODOS`] of them.
pub open spec fn capped(s: Seq<(Seq<char>, bool)>) -> Seq<(Seq<char>, bool)> {
    if s.len() <= MAX_TODOS {
        s
    } else {
        s.take(MAX_TODOS as int)
    }
}

/// The checklist inside an `update_todos` call: the `items` array, entries
/// without text dropped, at most [`MAX_TODOS`] lines.
pub open spec fn parse_todos_spec(args: JsonV) -> Seq<(Seq<char>, bool)> {
    match array_spec(get_spec(args, "items"@)) {
        Some(items) => capped(todos_of(items)),
        None => Seq::empty(),
    }
}

fn todo_from(item: &Json) -> (r: Option<Todo>)
    ensures
        match todo_of(item@) {
            Some(x) => r is Some && r->0@ == x,
            None => r is None,
        },
{
    match get_str(item, "text") {
        Some(t) => {
            let tv = chars_of(t);
            let tt = trim_chars(&tv);
            if tt.len() == 0 {
                return None;
            }
            let text = string_of(&take_chars(&tt, MAX_TODO_CHARS));
            let done = match item.get("done") {
                Some(d) => match d.as_bool() {
                    Some(b) => b,
                    None => false,
                },
                None => false,
            };
            Some(Todo { text, done })
        },
        None => None,
    }
}

/// The checklist inside an `update_todos` call, bounded.
pub fn parse_todos(args: &Json) -> (r: Vec<Todo>)
    ensures
        todo_views(r@) == parse_todos_spec(args@),
        r@.len() <= MAX_TODOS,
{
    let mut out: Vec<Todo> = Vec::new();
    match args.get("items") {
        Some(list) => match list.as_array() {
            Some(items) => {
                proof {
                    lemma_view_array(*items);
                }
                let ghost iv = views(items@);
                let mut i: usize = 0;
                while i < items.len()
                    invariant
                        iv == views(items@),
                        iv.len() == items@.len(),
                        forall|k: int| 0 <= k < items@.len() ==> #[trigger] iv[k] == items@[k]@,
                        i <= items@.len(),
                        todo_views(out@) == capped(todos_of(iv.take(i as int))),
                    decreases items@.len() - i,
                {
                    let ghost before = todo_views(out@);
                    let t = todo_from(&items[i]);
                    assert(iv.take(i + 1).drop_last() =~= iv.take(i as int));
                    match t {
                        Some(x) => {
                            if out.len() < MAX_TODOS {
                                out.push(x);
                                assert(todo_views(out@) =~= before.push(x@));
                            } else {
                                assert(capped(todos_of(iv.take(i as int)).push(x@)) =~= capped(
                                    todos_of(iv.take(i as int)),
                                ));
                            }
                        },
                        None => {},
                    }
                    i = i + 1;
                }
                assert(iv.take(i as int) =~= iv);
            },
            None => {},
        },
        None => {},
    }
    assert(todo_views(out@) =~= parse_todos_spec(args@));
    out
}

/// How many lines of a checklist are done.
pub open spec fn done_count(s: Seq<(Seq<char>, bool)>) -> nat
    decreases s.len(),
{
    if s.len() == 0 {
        0
    } else {
        done_count(s.drop_last()) + if s.last().1 {
            1nat
        } else {
            0nat
        }
    }
}

fn count_done(todos: &Vec<Todo>) -> (r: u64)
    ensures
        r == done_count(todo_views(todos@)),
{
    let mut n: u64 = 0;
    let mut i: usize = 0;
    while i < todos.len()
        invariant
            i <= todos@.len(),
            n == done_count(todo_views(todos@).take(i as int)),
            n <= i,
        decreases todos@.len() - i,
    {
        assert(todo_views(todos@).take(i + 1).drop_last() =~= todo_views(todos@).take(i as int));
        if todos[i].done {
            n = n + 1;
        }
        i = i + 1;
    }
    assert(todo_views(todos@).take(i as int) =~= todo_views(todos@));
    n
}

/// The command a `run_command` call asks to run, trimmed; empty when none can
/// be read out of it.
pub open spec fn command_spec(args: JsonV) -> Seq<char> {
    trim(arg_text(args, "command"@))
}

pub fn command_of(args: &Json) -> (r: String)
    ensures
        r@ == command_spec(args@),
{
    let v = chars_of(arg(args, "command"));
    string_of(&trim_chars(&v))
}

/// A stored call's arguments. They ride as a JSON string, which is parsed;
/// text that is not JSON reads as `null`.
pub open spec fn call_args_spec(f: JsonV) -> JsonV {
    match get_spec(f, "arguments"@) {
        Some(JsonV::Str(s)) => match parsed_json(s) {
            Some(v) => v,
            None => JsonV::Null,
        },
        Some(v) => v,
        None => JsonV::Null,
    }
}

pub fn call_args(f: &Json) -> (r: Json)
    ensures
        r@ == call_args_spec(f@),
{
    match f.get("arguments") {
        Some(a) => match a.as_str() {
            Some(text) => match parse_json(text) {
                Some(v) => v,
                None => Json::Null,
            },
            None => copy_json(a),
        },
        None => Json::Null,
    }
}

/// What a transcript row says about a call: what was done, not which
/// function did it.
pub open spec fn label_for_spec(name: Seq<char>, args: JsonV) -> Seq<char> {
    if name == "run_command"@ {
        if trim(arg_text(args, "command"@)).len() == 0 {
            "run_command (unreadable)"@
        } else {
            "$ "@ + arg_text(args, "command"@)
        }
    } else if name == "write_file"@ {
        "write_file "@ + arg_text(args, "path"@)
    } else if name == "edit_file"@ {
        "edit_file "@ + arg_text(args, "path"@)
    } else if name == "read_file"@ {
        "read_file "@ + arg_text(args, "path"@)
    } else if name == "search"@ {
        "search "@ + debug_text(arg_text(args, "query"@))
    } else if name == "repo_map"@ {
        "repo_map"@
    } else if name == "update_todos"@ {
        let items = parse_todos_spec(args);
        "todos "@ + nat_text(done_count(items)) + "/"@ + nat_text(items.len())
    } else if name == "list_dir"@ {
        let p = arg_text(args, "path"@);
        "list_dir "@ + if p.len() == 0 {
            "."@
        } else {
            p
        }
    } else {
        name + "("@ + compact(args) + ")"@
    }
}

/// Human-readable summary of a call, for its transcript row.
pub fn label_for(name: &str, args: &Json) -> (r: String)
    ensures
        r@ == label_for_spec(name@, args@),
{
    let mut out: Vec<char> = Vec::new();
    if str_eq(name, "run_command") {
        let c = arg(args, "command");
        if is_blank(c) {
            push_str(&mut out, "run_command (unreadable)");
        } else {
            push_str(&mut out, "$ ");
            push_str(&mut out, c);
        }
    } else if str_eq(name, "write_file") {
        push_str(&mut out, "write_file ");
        push_str(&mut out, arg(args, "path"));
    } else if str_eq(name, "edit_file") {
        push_str(&mut out, "edit_file ");
        push_str(&mut out, arg(args, "path"));
    } else if str_eq(name, "read_file") {
        push_str(&mut out, "read_file ");
        push_str(&mut out, arg(args, "path"));
    } else if str_eq(name, "search") {
        push_str(&mut out, "search ");
        let q = debug_str(arg(args, "query"));
        push_str(&mut out, q.as_str());
    } else if str_eq(name, "repo_map") {
        push_str(&mut out, "repo_map");
    } else if str_eq(name, "update_todos") {
        let items = parse_todos(args);
        let done = count_done(&items);
        push_str(&mut out, "todos ");
        push_u64(&mut out, done);
        push_str(&mut out, "/");
        push_u64(&mut out, items.len() as u64);
    } else if str_eq(name, "list_dir") {
        push_str(&mut out, "list_dir ");
        let p = arg(args, "path");
        if chars_of(p).len() == 0 {
            push_str(&mut out, ".");
        } else {
            push_str(&mut out, p);
        }
    } else {
        push_str(&mut out, name);
        push_str(&mut out, "(");
        let c = to_compact(args);
        push_all(&mut out, &c);
        push_str(&mut out, ")");
    }
    string_of(&out)
}

// ---------------------------------------------------------------------------
// Reopening a session
// ---------------------------------------------------------------------------

/// A stored tool result: an error when the executor said so.
pub open spec fn tool_outcome(content: Seq<char>) -> Result<Seq<char>, Seq<char>> {
    if "Error:"@.is_prefix_of(content) {
        Err(content)
    } else {
        Ok(content)
    }
}

/// The function a stored call names: its `function` member, or the call
/// itself when it has none.
pub open spec fn call_function(call: JsonV) -> JsonV {
    match get_spec(call, "function"@) {
        Some(f) => f,
        None => call,
    }
}

/// The name a stored call gives its function, `tool` when it gives none.
pub open spec fn call_name(f: JsonV) -> Seq<char> {
    match str_spec(get_spec(f, "name"@)) {
        Some(n) => n,
        None => "tool"@,
    }
}

/// The row a stored call becomes.
pub open spec fn call_row(call: JsonV) -> TurnV {
    let f = call_function(call);
    TurnV::Tool(label_for_spec(call_name(f), call_args_spec(f)), None)
}

/// The rows of a message's calls, in order.
pub open spec fn call_rows(calls: Seq<JsonV>) -> Seq<TurnV>
    decreases calls.len(),
{
    if calls.len() == 0 {
        Seq::empty()
    } else {
        call_rows(calls.drop_last()).push(call_row(calls.last()))
    }
}

/// The calls a stored message carries.
pub open spec fn calls_of(m: JsonV) -> Seq<JsonV> {
    match array_spec(get_spec(m, "tool_calls"@)) {
        Some(c) => c,
        None => Seq::empty(),
    }
}

/// One stored message read into the transcript: a user row; a result for
/// the oldest open tool row; the assistant's text (when it has any) then one
/// row per call; anything else (a system prompt) is not part of it.
pub open spec fn rebuild_step(ts: Seq<TurnV>, m: JsonV) -> Seq<TurnV> {
    let role = arg_text(m, "role"@);
    let content = arg_text(m, "content"@);
    if role == "user"@ {
        ts.push(TurnV::User(content))
    } else if role == "tool"@ {
        fill_open(ts, tool_outcome(content))
    } else if role == "assistant"@ {
        let with_text = if trim(content).len() == 0 {
            ts
        } else {
            ts.push(TurnV::Assistant(content))
        };
        with_text + call_rows(calls_of(m))
    } else {
        ts
    }
}

pub open spec fn rebuild_fold(ms: Seq<JsonV>) -> Seq<TurnV>
    decreases ms.len(),
{
    if ms.len() == 0 {
        Seq::empty()
    } else {
        rebuild_step(rebuild_fold(ms.drop_last()), ms.last())
    }
}

/// What a row left open by a session that ended mid-call says.
pub open spec fn never_answered() -> Seq<char> {
    "never answered \u{2014} the session ended here"@
}

/// The transcript a stored history reads back as, with any call the session
/// never answered closed.
pub open spec fn rebuild_spec(ms: Seq<JsonV>) -> Seq<TurnV> {
    close_open(rebuild_fold(ms), never_answered())
}

/// Which kind of row: 0 for the user's, 1 for the assistant's, 2 for a call.
pub open spec fn row_kind(t: TurnV) -> u8 {
    match t {
        TurnV::User(_) => 0,
        TurnV::Assistant(_) => 1,
        TurnV::Tool(_, _) => 2,
    }
}

/// How many rows of kind `k`.
pub open spec fn rows_of_kind(ts: Seq<TurnV>, k: u8) -> nat
    decreases ts.len(),
{
    if ts.len() == 0 {
        0
    } else {
        rows_of_kind(ts.drop_last(), k) + if row_kind(ts.last()) == k {
            1nat
        } else {
            0nat
        }
    }
}

/// How many rows of kind `k` a stored history should read back as: a row per
/// user message, a row per assistant message with something to say, and a
/// row per call an assistant message made; other roles add nothing.
pub open spec fn rows_expected(ms: Seq<JsonV>, k: u8) -> nat
    decreases ms.len(),
{
    if ms.len() == 0 {
        0
    } else {
        let m = ms.last();
        let role = arg_text(m, "role"@);
        let content = arg_text(m, "content"@);
        rows_expected(ms.drop_last(), k) + if role == "user"@ {
            if k == 0 { 1nat } else { 0nat }
        } else if role == "assistant"@ {
            if k == 1 {
                if trim(content).len() == 0 { 0nat } else { 1nat }
            } else if k == 2 {
                calls_of(m).len()
            } else {
                0nat
            }
        } else {
            0nat
        }
    }
}

proof fn lemma_kind_add(a: Seq<TurnV>, b: Seq<TurnV>, k: u8)
    ensures
        rows_of_kind(a + b, k) == rows_of_kind(a, k) + rows_of_kind(b, k),
    decreases b.len(),
{
    if b.len() == 0 {
        assert(a + b =~= a);
    } else {
        lemma_kind_add(a, b.drop_last(), k);
        assert((a + b).drop_last() =~= a + b.drop_last());
    }
}

proof fn lemma_kind_update(ts: Seq<TurnV>, i: int, x: TurnV, k: u8)
    requires
        0 <= i < ts.len(),
        row_kind(x) == row_kind(ts[i]),
    ensures
        rows_of_kind(ts.update(i, x), k) == rows_of_kind(ts, k),
    decreases ts.len(),
{
    let u = ts.update(i, x);
    if i < ts.len() - 1 {
        lemma_kind_update(ts.drop_last(), i, x, k);
        assert(u.drop_last() =~= ts.drop_last().update(i, x));
    } else {
        assert(u.drop_last() =~= ts.drop_last());
    }
}

proof fn lemma_kind_close(ts: Seq<TurnV>, reason: Seq<char>, k: u8)
    ensures
        rows_of_kind(close_open(ts, reason), k) == rows_of_kind(ts, k),
    decreases ts.len(),
{
    if ts.len() > 0 {
        lemma_kind_close(ts.drop_last(), reason, k);
        assert(close_open(ts, reason).drop_last() =~= close_open(ts.drop_last(), reason));
    }
}

proof fn lemma_kind_fill(ts: Seq<TurnV>, r: Result<Seq<char>, Seq<char>>, k: u8)
    ensures
        rows_of_kind(fill_open(ts, r), k) == rows_of_kind(ts, k),
{
    lemma_first_open(ts);
    match first_open(ts) {
        Some(i) => match ts[i] {
            TurnV::Tool(l, _) => lemma_kind_update(ts, i, TurnV::Tool(l, Some(r)), k),
            _ => {},
        },
        None => {},
    }
}

proof fn lemma_kind_calls(cs: Seq<JsonV>, k: u8)
    ensures
        rows_of_kind(call_rows(cs), k) == if k == 2 { cs.len() } else { 0 },
    decreases cs.len(),
{
    if cs.len() > 0 {
        lemma_kind_calls(cs.drop_last(), k);
        assert(call_rows(cs).drop_last() =~= call_rows(cs.drop_last()));
    }
}

proof fn lemma_kind_fold(ms: Seq<JsonV>, k: u8)
    ensures
        rows_of_kind(rebuild_fold(ms), k) == rows_expected(ms, k),
    decreases ms.len(),
{
    if ms.len() > 0 {
        lemma_kind_fold(ms.drop_last(), k);
        let ts = rebuild_fold(ms.drop_last());
        let m = ms.last();
        let role = arg_text(m, "role"@);
        let content = arg_text(m, "content"@);
        if role == "user"@ {
            assert(ts.push(TurnV::User(content)).drop_last() =~= ts);
        } else if role == "tool"@ {
            lemma_kind_fill(ts, tool_outcome(content), k);
            reveal_strlit("tool");
            reveal_strlit("assistant");
            reveal_strlit("user");
            assert("tool"@[0] != "user"@[0]);
            assert("tool"@.len() != "assistant"@.len());
            assert(role != "assistant"@ && role != "user"@);
        } else if role == "assistant"@ {
            let with_text = if trim(content).len() == 0 {
                ts
            } else {
                ts.push(TurnV::Assistant(content))
            };
            assert(ts.push(TurnV::Assistant(content)).drop_last() =~= ts);
            reveal_strlit("assistant");
            reveal_strlit("user");
            assert(role != "user"@);
            lemma_kind_add(with_text, call_rows(calls_of(m)), k);
            lemma_kind_calls(calls_of(m), k);
        }
    }
}

/// A reopened session reads back as the stream wrote it: one user row per
/// user message, one assistant row per assistant message with something to
/// say, one call row per call an assistant message made, nothing for any
/// other role, and no call row left waiting.
pub proof fn a_history_reads_back_row_for_row(ms: Seq<JsonV>)
    ensures
        rows_of_kind(rebuild_spec(ms), 0) == rows_expected(ms, 0),
        rows_of_kind(rebuild_spec(ms), 1) == rows_expected(ms, 1),
        rows_of_kind(rebuild_spec(ms), 2) == rows_expected(ms, 2),
        forall|i: int| 0 <= i < rebuild_spec(ms).len() ==> !is_open(#[trigger] rebuild_spec(ms)[i]),
{
    lemma_kind_fold(ms, 0);
    lemma_kind_fold(ms, 1);
    lemma_kind_fold(ms, 2);
    lemma_kind_close(rebuild_fold(ms), never_answered(), 0);
    lemma_kind_close(rebuild_fold(ms), never_answered(), 1);
    lemma_kind_close(rebuild_fold(ms), never_answered(), 2);
}

/// Append one row per call.
fn push_call_rows(turns: &mut Vec<Turn>, calls: &Vec<Json>)
    ensures
        turn_views(final(turns)@) == turn_views(old(turns)@) + call_rows(views(calls@)),
{
    proof {
        crate::json::lemma_views(calls@);
    }
    let ghost start = turn_views(turns@);
    let ghost cv = views(calls@);
    let mut i: usize = 0;
    while i < calls.len()
        invariant
            cv == views(calls@),
            cv.len() == calls@.len(),
            forall|k: int| 0 <= k < calls@.len() ==> #[trigger] cv[k] == calls@[k]@,
            i <= calls@.len(),
            turn_views(turns@) == start + call_rows(cv.take(i as int)),
        decreases calls@.len() - i,
    {
        let call = &calls[i];
        let f = match call.get("function") {
            Some(f) => f,
            None => call,
        };
        let name = match get_str(f, "name") {
            Some(n) => n,
            None => "tool",
        };
        let args = call_args(f);
        let label = label_for(name, &args);
        let ghost before = turn_views(turns@);
        turns.push(Turn::Tool { label, result: None });
        proof {
            assert(cv.take(i + 1).drop_last() =~= cv.take(i as int));
            assert(turn_views(turns@) =~= before.push(call_row(cv[i as int])));
        }
        i = i + 1;
    }
    assert(cv.take(i as int) =~= cv);
}

/// Reading a history back, a stored tool result answers the oldest call row
/// still waiting, and as an error exactly when it starts with `Error:`; no
/// other row changes, and with no row waiting it changes nothing.
pub proof fn a_stored_result_answers_the_oldest_open_call(ms: Seq<JsonV>, m: JsonV)
    requires
        arg_text(m, "role"@) == "tool"@,
    ensures
        ({
            let before = rebuild_fold(ms);
            let after = rebuild_fold(ms.push(m));
            let content = arg_text(m, "content"@);
            match first_open(before) {
                Some(i) => {
                    &&& 0 <= i < before.len()
                    &&& forall|k: int| 0 <= k < i ==> !is_open(#[trigger] before[k])
                    &&& after.len() == before.len()
                    &&& forall|k: int| 0 <= k < before.len() && k != i ==> #[trigger] after[k] == before[k]
                    &&& before[i] matches TurnV::Tool(l, None) && after[i] == TurnV::Tool(
                        l,
                        Some(if "Error:"@.is_prefix_of(content) { Err(content) } else { Ok(content) }),
                    )
                },
                None => after == before,
            }
        }),
{
    reveal_strlit("tool");
    reveal_strlit("user");
    assert(ms.push(m).drop_last() =~= ms);
    assert(ms.push(m).last() == m);
    assert("tool"@ != "user"@) by {
        assert("tool"@[0] != "user"@[0]);
    }
    lemma_first_open(rebuild_fold(ms));
}

/// Rebuild a transcript from a thread's stored history, in the shape the live
/// stream produces. Results are matched to calls in order, as they are live,
/// rather than by the model's call ids.
pub fn rebuild_turns(messages: &[Json]) -> (r: Vec<Turn>)
    ensures
        turn_views(r@) == rebuild_spec(views(messages@)),
{
    proof {
        crate::json::lemma_views(messages@);
    }
    let ghost mv = views(messages@);
    let mut turns: Vec<Turn> = Vec::new();
    let mut i: usize = 0;
    while i < messages.len()
        invariant
            mv == views(messages@),
            mv.len() == messages@.len(),
            forall|k: int| 0 <= k < messages@.len() ==> #[trigger] mv[k] == messages@[k]@,
            i <= messages@.len(),
            turn_views(turns@) == rebuild_fold(mv.take(i as int)),
        decreases messages@.len() - i,
    {
        let m = &messages[i];
        let ghost before = turn_views(turns@);
        let role = arg(m, "role");
        let content = arg(m, "content");
        if str_eq(role, "user") {
            turns.push(Turn::User(content.to_owned()));
            assert(turn_views(turns@) =~= before.push(TurnV::User(content@)));
        } else if str_eq(role, "tool") {
            let outcome = if starts_with_str(content, "Error:") {
                Err(content.to_owned())
            } else {
                Ok(content.to_owned())
            };
            resolve_open(&mut turns, outcome);
        } else if str_eq(role, "assistant") {
            if !is_blank(content) {
                turns.push(Turn::Assistant(content.to_owned()));
                assert(turn_views(turns@) =~= before.push(TurnV::Assistant(content@)));
            }
            match m.get("tool_calls") {
                Some(c) => match c.as_array() {
                    Some(calls) => {
                        proof {
                            lemma_view_array(*calls);
                        }
                        push_call_rows(&mut turns, calls);
                    },
                    None => {
                        assert(call_rows(Seq::<JsonV>::empty()) =~= Seq::<TurnV>::empty());
                        assert(turn_views(turns@) =~= turn_views(turns@) + Seq::<TurnV>::empty());
                    },
                },
                None => {
                    assert(call_rows(Seq::<JsonV>::empty()) =~= Seq::<TurnV>::empty());
                    assert(turn_views(turns@) =~= turn_views(turns@) + Seq::<TurnV>::empty());
                },
            }
        }
        proof {
            assert(mv.take(i + 1).drop_last() =~= mv.take(i as int));
            assert(mv.take(i + 1).last() == mv[i as int]);
        }
        i = i + 1;
    }
    assert(mv.take(i as int) =~= mv);
    close_open_rows(&mut turns, "never answered \u{2014} the session ended here");
    turns
}

/// The checklist after reading one message's calls: each `update_todos` call
/// with a non-empty list replaces it; a mangled one leaves it standing.
pub open spec fn todos_after_calls(todos: Seq<(Seq<char>, bool)>, calls: Seq<JsonV>) -> Seq<
    (Seq<char>, bool),
>
    decreases calls.len(),
{
    if calls.len() == 0 {
        todos
    } else {
        let t = todos_after_calls(todos, calls.drop_last());
        let f = call_function(calls.last());
        if str_spec(get_spec(f, "name"@)) == Some("update_todos"@) && parse_todos_spec(
            call_args_spec(f),
        ).len() > 0 {
            parse_todos_spec(call_args_spec(f))
        } else {
            t
        }
    }
}

pub open spec fn todos_fold(ms: Seq<JsonV>) -> Seq<(Seq<char>, bool)>
    decreases ms.len(),
{
    if ms.len() == 0 {
        Seq::empty()
    } else {
        todos_after_calls(todos_fold(ms.drop_last()), calls_of(ms.last()))
    }
}

/// The checklist a thread ended on, from the `update_todos` calls in its
/// history, so the reopened panel agrees with the live one.
pub fn rebuild_todos(messages: &[Json]) -> (r: Vec<Todo>)
    ensures
        todo_views(r@) == todos_fold(views(messages@)),
{
    proof {
        crate::json::lemma_views(messages@);
    }
    let ghost mv = views(messages@);
    let mut todos: Vec<Todo> = Vec::new();
    let mut i: usize = 0;
    while i < messages.len()
        invariant
            mv == views(messages@),
            mv.len() == messages@.len(),
            forall|k: int| 0 <= k < messages@.len() ==> #[trigger] mv[k] == messages@[k]@,
            i <= messages@.len(),
            todo_views(todos@) == todos_fold(mv.take(i as int)),
        decreases messages@.len() - i,
    {
        let m = &messages[i];
        let ghost at_start = todo_views(todos@);
        proof {
            assert(mv.take(i + 1).drop_last() =~= mv.take(i as int));
        }
        match m.get("tool_calls") {
            Some(c) => match c.as_array() {
                Some(calls) => {
                    proof {
                        lemma_view_array(*calls);
                        crate::json::lemma_views(calls@);
                    }
                    let ghost cv = views(calls@);
                    let mut j: usize = 0;
                    while j < calls.len()
                        invariant
                            cv == views(calls@),
                            cv.len() == calls@.len(),
                            forall|k: int| 0 <= k < calls@.len() ==> #[trigger] cv[k] == calls@[k]@,
                            j <= calls@.len(),
                            todo_views(todos@) == todos_after_calls(at_start, cv.take(j as int)),
                        decreases calls@.len() - j,
                    {
                        let call = &calls[j];
                        let f = match call.get("function") {
                            Some(f) => f,
                            None => call,
                        };
                        proof {
                            assert(cv.take(j + 1).drop_last() =~= cv.take(j as int));
                        }
                        let is_todos = match get_str(f, "name") {
                            Some(n) => str_eq(n, "update_todos"),
                            None => false,
                        };
                        if is_todos {
                            let parsed = parse_todos(&call_args(f));
                            if parsed.len() > 0 {
                                todos = parsed;
                            }
                        }
                        j = j + 1;
                    }
                    assert(cv.take(j as int) =~= cv);
                },
                None => {},
            },
            None => {},
        }
        i = i + 1;
    }
    assert(mv.take(i as int) =~= mv);
    todos
}

// ---------------------------------------------------------------------------
// Providers and the preview bar
// ---------------------------------------------------------------------------

/// What the preview bar makes of what was typed: nothing for a blank submit,
/// anything with a scheme (or `about:`) as it is, and `http://` in front of
/// a bare `localhost:5173`.
pub open spec fn normalize_url_spec(draft: Seq<char>) -> Option<Seq<char>> {
    let d = trim(draft);
    if d.len() == 0 {
        None
    } else if contains_seq(d, "://"@) || "about:"@.is_prefix_of(d) {
        Some(d)
    } else {
        Some("http://"@ + d)
    }
}

pub fn normalize_url(draft: &str) -> (r: Option<String>)
    ensures
        match normalize_url_spec(draft@) {
            Some(u) => r is Some && r->0@ == u,
            None => r is None,
        },
{
    let v = chars_of(draft);
    let d = trim_chars(&v);
    if d.len() == 0 {
        return None;
    }
    let ds = string_of(&d);
    let sep = chars_of("://");
    if contains_chars(&d, &sep) || starts_with_str(ds.as_str(), "about:") {
        return Some(ds);
    }
    let mut out: Vec<char> = Vec::new();
    push_str(&mut out, "http://");
    push_all(&mut out, &d);
    Some(string_of(&out))
}

// ---------------------------------------------------------------------------
// The session
// ---------------------------------------------------------------------------

/// A `run_command` call the server paused for a decision. `command` is empty
/// when no command could be read out of the call.
#[derive(Debug, Clone)]
pub struct Pending {
    pub call_id: String,
    pub command: String,
}

/// A past session, as the server lists it.
#[derive(Debug, Clone)]
pub struct ThreadSummary {
    pub id: i64,
    pub title: String,
}

/// One coder session: the folder, the transcript, the composer and queue,
/// the rules, and which panels are open.
#[derive(Debug)]
pub struct State {
    /// The folder the agent works in.
    pub root: Option<String>,
    /// The project, when `root` is a worktree rather than the project itself.
    pub main_root: Option<String>,
    pub thread_id: Option<i64>,
    pub turns: Vec<Turn>,
    pub draft: String,
    /// Follow-ups typed while a turn was running, in the order they were typed.
    pub queue: Vec<String>,
    /// Whether the turn that is ending should continue into `queue`.
    pub drain_queued: bool,
    pub sending: bool,
    pub autonomy: Autonomy,
    /// Saved rules, keyed by the root they were saved for; the first entry
    /// for a root is the one read.
    pub allowlist: Vec<(String, Vec<String>)>,
    pub plan_mode: PlanMode,
    /// The plan awaiting the user's go-ahead, on screen and editable.
    pub plan_card: Option<String>,
    pub kind: TurnKind,
    pub todos: Vec<Todo>,
    pub pending: Option<Pending>,
    pub threads: Vec<ThreadSummary>,
    /// Whether the user's own shell is open in the dock.
    pub term_open: bool,
    /// The file being read, and its text or why it cannot be shown.
    pub viewing: Option<(String, Result<String, String>)>,
    /// The checkpoint whose diff is open, and the diff once it has loaded.
    pub reviewing: Option<(String, Option<String>)>,
    pub dock: Dock,
    pub pane: Pane,
    pub files_open: bool,
    pub follow: bool,
    pub agents_md: bool,
    pub git_repo: bool,
    pub catalog: Vec<ProviderEntry>,
    pub provider: String,
    pub model: String,
    pub error: Option<String>,
    pub browser_open: bool,
    pub browser_draft: String,
    pub browser_url: String,
    /// The user stopped the turn in flight; what is still on its way from it
    /// belongs to a turn that is over.
    pub stopped: bool,
    /// A decision was sent and the server has not yet acted on it; the card
    /// stays until it does.
    pub resuming: bool,
    /// The turn in flight has said something.
    pub answered: bool,
    /// A command was refused because commands are off for the session.
    pub refused_for_commands_off: bool,
    /// The call the server is parked on, until its result is posted.
    pub outstanding: Option<String>,
    /// The call a saved rule answered, whose row is marked when it arrives.
    pub auto_approved: Option<String>,
    /// The prompt of the turn in flight, which its checkpoint is named by.
    pub in_flight: String,
    /// Seconds the turn in flight has run.
    pub elapsed: u32,
    /// Spinner frame.
    pub frame: u8,
    /// The file follow mode opens once the write in flight has landed.
    pub following: Option<String>,
    pub checkpoints: Vec<Checkpoint>,
    pub checkpoint_error: Option<String>,
    pub checkpoints_loading: bool,
    /// The turn's own commit landed, and its sha comes with the next timeline.
    pub awaiting_turn_sha: bool,
    /// The checkpoint of the turn that just ran, until it has been looked at.
    pub last_turn: Option<String>,
    /// The files the checkpoint under review touched.
    pub changes: Option<Changes>,
    /// The checkpoint a first press armed for restoring.
    pub restore_armed: Option<String>,
    /// The session a first press armed for deleting.
    pub delete_armed: Option<i64>,
    pub threads_loading: bool,
    /// The tool rows whose output is expanded; none twice.
    pub open_tools: Vec<usize>,
    /// The agent's command running in the user's shell.
    pub term_run: Option<TermRun>,
}

/// An agent command running in the user's shell rather than headless; the
/// turn is parked on it until its closing mark shows up or it times out.
#[derive(Debug)]
pub struct TermRun {
    pub call_id: String,
    /// What the shell brackets the output with.
    pub mark: String,
    pub command: String,
    /// Seconds waited.
    pub waited: u32,
}

/// The rules saved for `key`: those of the first entry with that key.
pub open spec fn rules_for(list: Seq<(String, Vec<String>)>, key: Seq<char>) -> Seq<Seq<char>>
    decreases list.len(),
{
    if list.len() == 0 {
        Seq::empty()
    } else if list[0].0@ == key {
        texts(list[0].1@)
    } else {
        rules_for(list.drop_first(), key)
    }
}

/// Index of the first entry with the key.
pub open spec fn entry_of(list: Seq<(String, Vec<String>)>, key: Seq<char>) -> Option<int>
    decreases list.len(),
{
    if list.len() == 0 {
        None
    } else if list[0].0@ == key {
        Some(0)
    } else {
        match entry_of(list.drop_first(), key) {
            Some(i) => Some(i + 1),
            None => None,
        }
    }
}

pub proof fn lemma_entry_of_at(list: Seq<(String, Vec<String>)>, key: Seq<char>, i: int)
    requires
        0 <= i <= list.len(),
        forall|j: int| 0 <= j < i ==> (#[trigger] list[j]).0@ != key,
        i == list.len() || list[i].0@ == key,
    ensures
        entry_of(list, key) == (if i == list.len() {
            None::<int>
        } else {
            Some(i)
        }),
        rules_for(list, key) == (if i == list.len() {
            Seq::<Seq<char>>::empty()
        } else {
            texts(list[i].1@)
        }),
    decreases i,
{
    if i > 0 {
        let t = list.drop_first();
        assert forall|j: int| 0 <= j < i - 1 implies (#[trigger] t[j]).0@ != key by {
            assert(t[j] == list[j + 1]);
        }
        if i < list.len() {
            assert(t[i - 1] == list[i]);
        }
        lemma_entry_of_at(t, key, i - 1);
    }
}

/// Replacing the entry found for one key leaves every other key's rules alone.
pub proof fn lemma_rules_for_update(
    list: Seq<(String, Vec<String>)>,
    i: int,
    e: (String, Vec<String>),
    key: Seq<char>,
)
    requires
        0 <= i < list.len(),
        e.0@ == list[i].0@,
        forall|j: int| 0 <= j < i ==> (#[trigger] list[j]).0@ != list[i].0@,
    ensures
        rules_for(list.update(i, e), key) == (if key == list[i].0@ {
            texts(e.1@)
        } else {
            rules_for(list, key)
        }),
    decreases i,
{
    let t = list.drop_first();
    if i > 0 {
        assert(list.update(i, e).drop_first() =~= t.update(i - 1, e));
        assert(t[i - 1] == list[i]);
        assert forall|j: int| 0 <= j < i - 1 implies (#[trigger] t[j]).0@ != t[i - 1].0@ by {
            assert(t[j] == list[j + 1]);
        }
        assert(list[0].0@ != list[i].0@);
        lemma_rules_for_update(t, i - 1, e, key);
    } else {
        assert(list.update(i, e).drop_first() =~= t);
    }
}

/// A new entry at the end only answers for a key no earlier entry has.
pub proof fn lemma_rules_for_push(
    list: Seq<(String, Vec<String>)>,
    e: (String, Vec<String>),
    key: Seq<char>,
)
    requires
        forall|j: int| 0 <= j < list.len() ==> (#[trigger] list[j]).0@ != e.0@,
    ensures
        rules_for(list.push(e), key) == (if key == e.0@ {
            texts(e.1@)
        } else {
            rules_for(list, key)
        }),
    decreases list.len(),
{
    if list.len() > 0 {
        let t = list.drop_first();
        assert(list.push(e).drop_first() =~= t.push(e));
        assert(list.push(e)[0] == list[0]);
        assert forall|j: int| 0 <= j < t.len() implies (#[trigger] t[j]).0@ != e.0@ by {
            assert(t[j] == list[j + 1]);
        }
        lemma_rules_for_push(t, e, key);
        assert(list.push(e).len() > 0);
        if key == list[0].0@ {
            assert(rules_for(list.push(e), key) == texts(list[0].1@));
        } else {
            assert(rules_for(list.push(e), key) == rules_for(t.push(e), key));
            assert(rules_for(list, key) == rules_for(t, key));
        }
    } else {
        let one = list.push(e);
        assert(one[0] == e);
        assert(one.drop_first() =~= Seq::<(String, Vec<String>)>::empty());
        assert(rules_for(Seq::<(String, Vec<String>)>::empty(), key) == Seq::<Seq<char>>::empty());
        assert(rules_for(list, key) == Seq::<Seq<char>>::empty());
        if key != e.0@ {
            assert(rules_for(one, key) == rules_for(one.drop_first(), key));
        }
    }
}

/// Index of the first entry saved for `key`, or the length when there is none.
fn entry_index(list: &Vec<(String, Vec<String>)>, key: &str) -> (r: usize)
    ensures
        r <= list@.len(),
        forall|j: int| 0 <= j < r ==> (#[trigger] list@[j]).0@ != key@,
        r == list@.len() || list@[r as int].0@ == key@,
{
    let mut i: usize = 0;
    while i < list.len()
        invariant
            i <= list@.len(),
            forall|j: int| 0 <= j < i ==> (#[trigger] list@[j]).0@ != key@,
        decreases list@.len() - i,
    {
        if str_eq(list[i].0.as_str(), key) {
            return i;
        }
        i = i + 1;
    }
    i
}

/// The tabs of the dock that have something behind them, in a fixed order.
pub open spec fn dock_tabs_spec(term_open: bool, viewing: bool, reviewing: bool) -> Seq<Dock> {
    let a = if term_open {
        seq![Dock::Terminal]
    } else {
        Seq::empty()
    };
    let b = if viewing {
        a.push(Dock::File)
    } else {
        a
    };
    if reviewing {
        b.push(Dock::Diff)
    } else {
        b
    }
}

/// The tab actually drawn: the selected one while it has content, otherwise
/// the first that does; nothing when the dock is empty.
pub open spec fn dock_shown_spec(tabs: Seq<Dock>, selected: Dock) -> Option<Dock> {
    if tabs.contains(selected) {
        Some(selected)
    } else if tabs.len() > 0 {
        Some(tabs[0])
    } else {
        None
    }
}

/// The last row still waiting for a result, if any.
pub open spec fn last_open(ts: Seq<TurnV>) -> Option<int>
    decreases ts.len(),
{
    if ts.len() == 0 {
        None
    } else if is_open(ts.last()) {
        Some(ts.len() - 1)
    } else {
        last_open(ts.drop_last())
    }
}

/// The text of the last assistant row.
pub open spec fn last_reply_spec(ts: Seq<TurnV>) -> Seq<char>
    decreases ts.len(),
{
    if ts.len() == 0 {
        Seq::empty()
    } else {
        match ts.last() {
            TurnV::Assistant(t) => t,
            _ => last_reply_spec(ts.drop_last()),
        }
    }
}

/// The text of the first user row.
pub open spec fn first_user(ts: Seq<TurnV>) -> Option<Seq<char>>
    decreases ts.len(),
{
    if ts.len() == 0 {
        None
    } else {
        match ts[0] {
            TurnV::User(t) => Some(t),
            _ => first_user(ts.drop_first()),
        }
    }
}

/// The title the server gave the thread, when it gave one that is not blank.
pub open spec fn thread_title(threads: Seq<ThreadSummary>, id: i64) -> Option<Seq<char>>
    decreases threads.len(),
{
    if threads.len() == 0 {
        None
    } else if threads[0].id == id {
        if trim(threads[0].title@).len() == 0 {
            None
        } else {
            Some(threads[0].title@)
        }
    } else {
        thread_title(threads.drop_first(), id)
    }
}

/// What the board calls a session: the server's own title once the thread
/// has one, else the first thing the user said (trimmed, at most 60
/// characters), else `New session`.
pub open spec fn title_spec(thread_id: Option<i64>, threads: Seq<ThreadSummary>, ts: Seq<TurnV>)
    -> Seq<char> {
    let named = match thread_id {
        Some(id) => thread_title(threads, id),
        None => None,
    };
    match named {
        Some(t) => t,
        None => match first_user(ts) {
            Some(first) => first_n(trim(first), 60),
            None => "New session"@,
        },
    }
}

/// What the checklist call is answered with.
pub open spec fn set_todos_reply(items: Seq<(Seq<char>, bool)>) -> Seq<char> {
    if items.len() == 0 {
        "Error: update_todos needs a non-empty `items` array of {text, done} objects."@
    } else {
        "Checklist updated: "@ + nat_text(done_count(items)) + "/"@ + nat_text(items.len())
            + " done."@
    }
}

impl State {
    /// A session on `root` (blank for none). Whether the folder carries an
    /// `AGENTS.md` and whether it is a git repository are read off the disk by
    /// the caller.
    pub fn with_root(root: &str, agents_md: bool, git_repo: bool) -> (r: State)
        ensures
            match r.root {
                Some(p) => trim(root@).len() > 0 && p@ == trim(root@),
                None => trim(root@).len() == 0,
            },
            r.agents_md == (agents_md && r.root is Some),
            r.git_repo == (git_repo && r.root is Some),
            at_rest(r),
            r.main_root is None,
            r.autonomy == Autonomy::Off,
            r.plan_mode == PlanMode::Inline,
            r.dock == Dock::Terminal,
            r.pane == Pane::Sessions,
            !r.files_open && !r.follow,
            r.allowlist@.len() == 0,
            r.threads@.len() == 0 && r.catalog@.len() == 0 && r.checkpoints@.len() == 0,
            r.provider@.len() == 0 && r.model@.len() == 0,
            !r.browser_open && r.browser_draft@.len() == 0 && r.browser_url@.len() == 0,
    {
        let t = trim_str(root);
        let open = !is_blank_exact(t.as_str());
        let root = if open {
            Some(t)
        } else {
            None
        };
        State {
            root,
            main_root: None,
            thread_id: None,
            turns: Vec::new(),
            draft: String::new(),
            queue: Vec::new(),
            drain_queued: false,
            sending: false,
            autonomy: Autonomy::Off,
            allowlist: Vec::new(),
            plan_mode: PlanMode::Inline,
            plan_card: None,
            kind: TurnKind::Work,
            todos: Vec::new(),
            pending: None,
            threads: Vec::new(),
            term_open: false,
            viewing: None,
            reviewing: None,
            dock: Dock::Terminal,
            pane: Pane::Sessions,
            files_open: false,
            follow: false,
            agents_md: agents_md && open,
            git_repo: git_repo && open,
            catalog: Vec::new(),
            provider: String::new(),
            model: String::new(),
            error: None,
            browser_open: false,
            browser_draft: String::new(),
            browser_url: String::new(),
            stopped: false,
            resuming: false,
            answered: false,
            refused_for_commands_off: false,
            outstanding: None,
            auto_approved: None,
            in_flight: String::new(),
            elapsed: 0,
            frame: 0,
            following: None,
            checkpoints: Vec::new(),
            checkpoint_error: None,
            checkpoints_loading: false,
            awaiting_turn_sha: false,
            last_turn: None,
            changes: None,
            restore_armed: None,
            delete_armed: None,
            threads_loading: false,
            open_tools: Vec::new(),
            term_run: None,
        }
    }

    /// The rules saved for the folder that is open; none with no folder.
    pub fn rules(&self) -> (r: &[String])
        ensures
            texts(r@) == match self.root {
                Some(p) => rules_for(self.allowlist@, p@),
                None => Seq::empty(),
            },
    {
        match &self.root {
            Some(p) => {
                let i = entry_index(&self.allowlist, p.as_str());
                proof {
                    lemma_entry_of_at(self.allowlist@, p@, i as int);
                }
                if i < self.allowlist.len() {
                    return self.allowlist[i].1.as_slice();
                }
                let none: &[String] = &[];
                assert(texts(none@) =~= Seq::<Seq<char>>::empty());
                none
            },
            None => {
                let none: &[String] = &[];
                assert(texts(none@) =~= Seq::<Seq<char>>::empty());
                none
            },
        }
    }

    /// Save a rule for the open folder. A duplicate is dropped rather than
    /// stacked; other folders' rules are untouched.
    pub fn allow_rule(&mut self, rule: String)
        ensures
            match old(self).root {
                Some(p) => forall|k: Seq<char>|
                    #[trigger] rules_for(final(self).allowlist@, k) == if k == p@ {
                        let before = rules_for(old(self).allowlist@, p@);
                        if before.contains(rule@) {
                            before
                        } else {
                            before.push(rule@)
                        }
                    } else {
                        rules_for(old(self).allowlist@, k)
                    },
                None => final(self).allowlist@ == old(self).allowlist@,
            },
            final(self).root == old(self).root,
    {
        match &self.root {
            Some(p) => {
                let root = p.clone();
                add_rule(&mut self.allowlist, root, rule);
            },
            None => {},
        }
    }

    /// What the turn is waiting on, most specific first: the user, then the
    /// tool in flight (the newest still open), then the model.
    pub fn activity(&self) -> (r: &str)
        ensures
            r@ == if !self.sending && (self.pending is Some || self.plan_card is Some) {
                "waiting for you"@
            } else {
                match last_open(turn_views(self.turns@)) {
                    Some(k) => match turn_views(self.turns@)[k] {
                        TurnV::Tool(l, _) => l,
                        _ => "thinking"@,
                    },
                    None => "thinking"@,
                }
            },
    {
        if !self.sending && (self.pending.is_some() || self.plan_card.is_some()) {
            return "waiting for you";
        }
        let ghost tv = turn_views(self.turns@);
        let mut k: usize = self.turns.len();
        assert(tv.take(k as int) =~= tv);
        while k > 0
            invariant
                tv == turn_views(self.turns@),
                !(!self.sending && (self.pending is Some || self.plan_card is Some)),
                k <= self.turns@.len(),
                last_open(tv) == last_open(tv.take(k as int)),
            decreases k,
        {
            let found = match &self.turns[k - 1] {
                Turn::Tool { label, result: None } => Some(label.as_str()),
                _ => None,
            };
            proof {
                assert(tv[k - 1] == self.turns@[k - 1]@);
                assert(tv.take(k as int).last() == tv[k - 1]);
                assert(tv.take(k as int).drop_last() =~= tv.take(k - 1));
            }
            match found {
                Some(l) => {
                    assert(is_open(tv.take(k as int).last()));
                    assert(last_open(tv) == Some(k - 1));
                    return l;
                },
                None => {},
            }
            k = k - 1;
        }
        "thinking"
    }

    /// The providers the catalog offers, by id.
    pub fn provider_ids(&self) -> (r: Vec<String>)
        ensures
            texts(r@) == ids_of(self.catalog@),
    {
        provider_ids(&self.catalog)
    }

    /// Models the chosen provider offers; every provider's when none is
    /// picked, since the proxy resolves an alias to its provider on its own.
    pub fn model_options(&self) -> (r: Vec<String>)
        ensures
            texts(r@) == model_options_spec(self.catalog@, self.provider@),
    {
        model_options(&self.catalog, self.provider.as_str())
    }

    pub fn root_label(&self) -> (r: String)
        ensures
            r@ == match self.root {
                Some(p) => p@,
                None => "No folder open"@,
            },
    {
        match &self.root {
            Some(p) => p.clone(),
            None => "No folder open".to_owned(),
        }
    }

    /// What this session is doing, for the board: a wait on the user
    /// outranks a wait on the model.
    pub fn status(&self) -> (r: Status)
        ensures
            r == if self.pending is Some || self.plan_card is Some {
                Status::Awaiting
            } else if self.sending {
                Status::Running
            } else {
                Status::Idle
            },
    {
        if self.pending.is_some() || self.plan_card.is_some() {
            Status::Awaiting
        } else if self.sending {
            Status::Running
        } else {
            Status::Idle
        }
    }

    /// What the board calls this session.
    pub fn title(&self) -> (r: String)
        ensures
            r@ == title_spec(self.thread_id, self.threads@, turn_views(self.turns@)),
    {
        match self.thread_id {
            Some(id) => match named_title(&self.threads, id) {
                Some(t) => {
                    return t;
                },
                None => {},
            },
            None => {},
        }
        let ghost tv = turn_views(self.turns@);
        let mut k: usize = 0;
        assert(tv.skip(0) =~= tv);
        while k < self.turns.len()
            invariant
                tv == turn_views(self.turns@),
                match self.thread_id {
                    Some(id) => thread_title(self.threads@, id) is None,
                    None => true,
                },
                k <= self.turns@.len(),
                first_user(tv) == first_user(tv.skip(k as int)),
            decreases self.turns@.len() - k,
        {
            proof {
                assert(tv.skip(k as int).drop_first() =~= tv.skip(k + 1));
                assert(tv[k as int] == self.turns@[k as int]@);
                assert(tv.skip(k as int)[0] == tv[k as int]);
            }
            match &self.turns[k] {
                Turn::User(text) => {
                    let v = chars_of(text.as_str());
                    let t = trim_chars(&v);
                    return string_of(&take_chars(&t, 60));
                },
                _ => {},
            }
            k = k + 1;
        }
        "New session".to_owned()
    }

    /// The last thing the agent actually said, for a completion toast.
    pub fn last_reply(&self) -> (r: &str)
        ensures
            r@ == last_reply_spec(turn_views(self.turns@)),
    {
        let ghost tv = turn_views(self.turns@);
        let mut k: usize = self.turns.len();
        assert(tv.take(k as int) =~= tv);
        while k > 0
            invariant
                tv == turn_views(self.turns@),
                k <= self.turns@.len(),
                last_reply_spec(tv) == last_reply_spec(tv.take(k as int)),
            decreases k,
        {
            proof {
                assert(tv[k - 1] == self.turns@[k - 1]@);
                assert(tv.take(k as int).last() == tv[k - 1]);
                assert(tv.take(k as int).drop_last() =~= tv.take(k - 1));
            }
            match &self.turns[k - 1] {
                Turn::Assistant(text) => {
                    return text.as_str();
                },
                _ => {},
            }
            k = k - 1;
        }
        proof {
            reveal_strlit("");
        }
        ""
    }

    /// Attach an outcome to the oldest tool row still waiting for one.
    pub fn resolve_tool(&mut self, result: Result<String, String>)
        ensures
            turn_views(final(self).turns@) == fill_open(
                turn_views(old(self).turns@),
                match result {
                    Ok(t) => Ok(t@),
                    Err(t) => Err(t@),
                },
            ),
    {
        resolve_open(&mut self.turns, result);
    }

    /// Close every row the ending turn never answered, saying why.
    pub fn close_open_tools(&mut self, reason: &str)
        ensures
            turn_views(final(self).turns@) == close_open(turn_views(old(self).turns@), reason@),
    {
        close_open_rows(&mut self.turns, reason);
    }

    /// The dock tabs that currently have something behind them.
    pub fn dock_tabs(&self) -> (r: Vec<Dock>)
        ensures
            r@ == dock_tabs_spec(self.term_open, self.viewing is Some, self.reviewing is Some),
    {
        let mut tabs: Vec<Dock> = Vec::new();
        if self.term_open {
            tabs.push(Dock::Terminal);
        }
        if self.viewing.is_some() {
            tabs.push(Dock::File);
        }
        if self.reviewing.is_some() {
            tabs.push(Dock::Diff);
        }
        assert(tabs@ =~= dock_tabs_spec(
            self.term_open,
            self.viewing is Some,
            self.reviewing is Some,
        ));
        tabs
    }

    /// The tab actually to draw: the selected one when it still has content,
    /// otherwise the first that does.
    pub fn dock_shown(&self) -> (r: Option<Dock>)
        ensures
            r == dock_shown_spec(
                dock_tabs_spec(self.term_open, self.viewing is Some, self.reviewing is Some),
                self.dock,
            ),
    {
        let tabs = self.dock_tabs();
        let mut i: usize = 0;
        while i < tabs.len()
            invariant
                tabs@ == dock_tabs_spec(self.term_open, self.viewing is Some, self.reviewing is Some),
                i <= tabs@.len(),
                forall|j: int| 0 <= j < i ==> tabs@[j] != self.dock,
            decreases tabs@.len() - i,
        {
            if tabs[i] == self.dock {
                assert(tabs@[i as int] == self.dock);
                assert(tabs@.contains(self.dock));
                return Some(self.dock);
            }
            i = i + 1;
        }
        if tabs.len() > 0 {
            Some(tabs[0])
        } else {
            None
        }
    }

    /// Whether the turn in flight can be stopped.
    pub fn stoppable(&self) -> (r: bool)
        ensures
            r == self.sending,
    {
        self.sending
    }

    /// Whether a send right now would queue rather than start a turn.
    pub fn would_queue(&self) -> (r: bool)
        ensures
            r == (self.sending || self.pending is Some || self.plan_card is Some),
    {
        self.sending || self.pending.is_some() || self.plan_card.is_some()
    }

    /// Take a posted checklist and answer the call with what the model should
    /// see. A list with nothing usable in it leaves the last good one up.
    pub fn set_todos(&mut self, args: &Json) -> (r: String)
        ensures
            r@ == set_todos_reply(parse_todos_spec(args@)),
            todo_views(final(self).todos@) == if parse_todos_spec(args@).len() == 0 {
                todo_views(old(self).todos@)
            } else {
                parse_todos_spec(args@)
            },
    {
        let items = parse_todos(args);
        let reply = checklist_reply(&items);
        if items.len() > 0 {
            self.todos = items;
        }
        reply
    }

    /// Take the next queued follow-up into the composer, when the turn that
    /// just ended is to continue into the queue. True when it did, and the
    /// caller is to send it. Either way the flag is spent.
    pub fn drain_queued(&mut self) -> (r: bool)
        ensures
            r == (old(self).drain_queued && old(self).queue@.len() > 0),
            !final(self).drain_queued,
            r ==> final(self).draft == old(self).queue@[0] && final(self).queue@
                == old(self).queue@.drop_first(),
            !r ==> final(self).draft == old(self).draft && final(self).queue@ == old(
                self,
            ).queue@,
    {
        let go = self.drain_queued;
        self.drain_queued = false;
        if !go || self.queue.len() == 0 {
            return false;
        }
        self.draft = self.queue.remove(0);
        true
    }

    /// Switch the left sidebar; the Files pane and the persisted `files_open`
    /// flag are one fact.
    pub fn select_pane(&mut self, pane: Pane)
        ensures
            final(self).pane == pane,
            final(self).files_open == (pane == Pane::Files),
    {
        self.pane = pane;
        self.files_open = matches!(pane, Pane::Files);
    }
}

/// Save `rule` for `root` in the list, keeping it once; other roots' rules
/// are untouched.
pub fn add_rule(list: &mut Vec<(String, Vec<String>)>, root: String, rule: String)
    ensures
        forall|k: Seq<char>|
            #[trigger] rules_for(final(list)@, k) == if k == root@ {
                let before = rules_for(old(list)@, root@);
                if before.contains(rule@) {
                    before
                } else {
                    before.push(rule@)
                }
            } else {
                rules_for(old(list)@, k)
            },
{
    let ghost before = list@;
    let i = entry_index(list, root.as_str());
    proof {
        lemma_entry_of_at(before, root@, i as int);
    }
    let ghost old_rules = rules_for(before, root@);
    if i == list.len() {
        let mut rules: Vec<String> = Vec::new();
        rules.push(rule);
        let e = (root, rules);
        proof {
            lemma_rules_for_push(before, e, e.0@);
            assert forall|k: Seq<char>| #[trigger] rules_for(before.push(e), k) == (if k == e.0@ {
                texts(e.1@)
            } else {
                rules_for(before, k)
            }) by {
                lemma_rules_for_push(before, e, k);
            }
            assert(texts(e.1@) =~= old_rules.push(rule@));
        }
        list.push(e);
    } else {
        let mut rules: Vec<String> = list[i].1.clone();
        assert(rules@ == before[i as int].1@);
        let mut j: usize = 0;
        let mut found = false;
        while j < rules.len()
            invariant
                j <= rules@.len(),
                found == exists|m: int| 0 <= m < j && #[trigger] rules@[m]@ == rule@,
            decreases rules@.len() - j,
        {
            if str_eq(rules[j].as_str(), rule.as_str()) {
                found = true;
            }
            j = j + 1;
        }
        proof {
            if found {
                let m = choose|m: int| 0 <= m < j && #[trigger] rules@[m]@ == rule@;
                assert(texts(rules@)[m] == rule@);
            } else {
                assert forall|m: int| 0 <= m < texts(rules@).len() implies #[trigger] texts(
                    rules@,
                )[m] != rule@ by {
                    assert(texts(rules@)[m] == rules@[m]@);
                }
            }
        }
        if !found {
            let ghost rv = rules@;
            rules.push(rule);
            assert(texts(rules@) =~= texts(rv).push(rule@));
        }
        let e = (root, rules);
        proof {
            assert forall|k: Seq<char>| #[trigger] rules_for(before.update(i as int, e), k) == (
            if k == before[i as int].0@ {
                texts(e.1@)
            } else {
                rules_for(before, k)
            }) by {
                lemma_rules_for_update(before, i as int, e, k);
            }
        }
        list.set(i, e);
    }
}


/// What a posted checklist is answered with.
pub fn checklist_reply(items: &Vec<Todo>) -> (r: String)
    ensures
        r@ == set_todos_reply(todo_views(items@)),
{
    if items.len() == 0 {
        return "Error: update_todos needs a non-empty `items` array of {text, done} objects.".to_owned();
    }
    let done = count_done(items);
    let total = items.len() as u64;
    let mut out: Vec<char> = Vec::new();
    push_str(&mut out, "Checklist updated: ");
    push_u64(&mut out, done);
    push_str(&mut out, "/");
    push_u64(&mut out, total);
    push_str(&mut out, " done.");
    string_of(&out)
}

/// The title the server gave thread `id`, when not blank.
fn named_title(threads: &Vec<ThreadSummary>, id: i64) -> (r: Option<String>)
    ensures
        match thread_title(threads@, id) {
            Some(t) => r is Some && r->0@ == t,
            None => r is None,
        },
{
    let mut i: usize = 0;
    assert(threads@.skip(0) =~= threads@);
    while i < threads.len()
        invariant
            i <= threads@.len(),
            thread_title(threads@, id) == thread_title(threads@.skip(i as int), id),
        decreases threads@.len() - i,
    {
        proof {
            assert(threads@.skip(i as int).drop_first() =~= threads@.skip(i + 1));
            assert(threads@.skip(i as int)[0] == threads@[i as int]);
        }
        if threads[i].id == id {
            if is_blank(threads[i].title.as_str()) {
                return None;
            }
            return Some(threads[i].title.clone());
        }
        i = i + 1;
    }
    None
}

/// Whether a string has no characters at all.
fn is_blank_exact(s: &str) -> (r: bool)
    ensures
        r == (s@.len() == 0),
{
    chars_of(s).len() == 0
}

/// A fresh conversation in the same folder: everything around the
/// conversation carried over, nothing of the conversation itself.
/// `after` is a fresh conversation in `before`'s folder: everything around the
/// conversation carried over, nothing of the conversation itself.
/// A session with no conversation and nothing under way: no thread, no rows,
/// no queue, no turn in flight or stopped, no decision, card or call
/// outstanding, no review or file open, and nothing armed or being loaded.
pub open spec fn at_rest(s: State) -> bool {
    &&& s.thread_id is None
    &&& s.turns@.len() == 0
    &&& s.draft@.len() == 0
    &&& s.queue@.len() == 0
    &&& !s.drain_queued
    &&& !s.sending
    &&& s.plan_card is None
    &&& s.kind == TurnKind::Work
    &&& s.todos@.len() == 0
    &&& s.pending is None
    &&& !s.term_open
    &&& s.viewing is None
    &&& s.reviewing is None
    &&& s.error is None
    &&& !s.stopped
    &&& !s.resuming
    &&& !s.answered
    &&& !s.refused_for_commands_off
    &&& s.outstanding is None
    &&& s.auto_approved is None
    &&& s.in_flight@.len() == 0
    &&& s.elapsed == 0
    &&& s.frame == 0
    &&& s.following is None
    &&& s.checkpoint_error is None
    &&& !s.checkpoints_loading
    &&& !s.awaiting_turn_sha
    &&& s.last_turn is None
    &&& s.changes is None
    &&& s.restore_armed is None
    &&& s.delete_armed is None
    &&& !s.threads_loading
    &&& s.open_tools@.len() == 0
    &&& s.term_run is None
}

/// `after` is a fresh conversation in `before`'s folder: at rest, with the
/// folder, its settings, rules, model, history and panels carried over.
pub open spec fn fresh_of(after: State, before: State) -> bool {
    &&& at_rest(after)
    &&& after.root == before.root
    &&& after.main_root == before.main_root
    &&& after.git_repo == before.git_repo
    &&& after.agents_md == before.agents_md
    &&& after.autonomy == before.autonomy
    &&& after.plan_mode == before.plan_mode
    &&& after.follow == before.follow
    &&& after.provider@ == before.provider@
    &&& after.model@ == before.model@
    &&& after.files_open == before.files_open
    &&& after.pane == before.pane
    &&& after.dock == before.dock
    &&& after.browser_open == before.browser_open
    &&& after.browser_url@ == before.browser_url@
    &&& after.browser_draft@ == before.browser_draft@
    &&& forall|k: Seq<char>| #[trigger] rules_for(after.allowlist@, k) == rules_for(before.allowlist@, k)
    &&& after.threads@.len() == before.threads@.len()
    &&& after.catalog@.len() == before.catalog@.len()
    &&& after.checkpoints@.len() == before.checkpoints@.len()
}

pub fn fresh_from(state: &State) -> (r: State)
    ensures
        fresh_of(r, *state),
{
    State {
        root: state.root.clone(),
        main_root: state.main_root.clone(),
        thread_id: None,
        turns: Vec::new(),
        draft: String::new(),
        queue: Vec::new(),
        drain_queued: false,
        sending: false,
        autonomy: state.autonomy,
        allowlist: copy_allowlist(&state.allowlist),
        plan_mode: state.plan_mode,
        plan_card: None,
        kind: TurnKind::Work,
        todos: Vec::new(),
        pending: None,
        threads: state.threads.clone(),
        term_open: false,
        viewing: None,
        reviewing: None,
        dock: state.dock,
        pane: state.pane,
        files_open: state.files_open,
        follow: state.follow,
        agents_md: state.agents_md,
        git_repo: state.git_repo,
        catalog: state.catalog.clone(),
        provider: state.provider.clone(),
        model: state.model.clone(),
        error: None,
        browser_open: state.browser_open,
        browser_draft: state.browser_draft.clone(),
        browser_url: state.browser_url.clone(),
        stopped: false,
        resuming: false,
        answered: false,
        refused_for_commands_off: false,
        outstanding: None,
        auto_approved: None,
        in_flight: String::new(),
        elapsed: 0,
        frame: 0,
        following: None,
        checkpoints: state.checkpoints.clone(),
        checkpoint_error: None,
        checkpoints_loading: false,
        awaiting_turn_sha: false,
        last_turn: None,
        changes: None,
        restore_armed: None,
        delete_armed: None,
        threads_loading: false,
        open_tools: Vec::new(),
        term_run: None,
    }
}

/// A copy of the saved rules that reads the same for every folder.
pub fn copy_allowlist(list: &Vec<(String, Vec<String>)>) -> (r: Vec<(String, Vec<String>)>)
    ensures
        forall|k: Seq<char>| #[trigger] rules_for(r@, k) == rules_for(list@, k),
{
    let mut out: Vec<(String, Vec<String>)> = Vec::new();
    let mut i: usize = 0;
    while i < list.len()
        invariant
            i <= list@.len(),
            out@.len() == i,
            forall|j: int|
                0 <= j < i ==> (#[trigger] out@[j]).0@ == list@[j].0@ && texts(out@[j].1@) == texts(
                    list@[j].1@,
                ),
        decreases list@.len() - i,
    {
        let key = list[i].0.clone();
        let mut rules: Vec<String> = Vec::new();
        let mut j: usize = 0;
        while j < list[i].1.len()
            invariant
                i < list@.len(),
                j <= list@[i as int].1@.len(),
                texts(rules@) == texts(list@[i as int].1@.take(j as int)),
            decreases list@[i as int].1@.len() - j,
        {
            let ghost prev = rules@;
            let x = list[i].1[j].clone();
            rules.push(x);
            proof {
                lemma_texts_push(prev, x);
                lemma_texts_take_next(list@[i as int].1@, j as int);
            }
            j = j + 1;
        }
        assert(list@[i as int].1@.take(j as int) =~= list@[i as int].1@);
        out.push((key, rules));
        i = i + 1;
    }
    proof {
        assert forall|k: Seq<char>| #[trigger] rules_for(out@, k) == rules_for(list@, k) by {
            lemma_rules_for_same(out@, list@, k);
        }
    }
    out
}

proof fn lemma_rules_for_same(a: Seq<(String, Vec<String>)>, b: Seq<(String, Vec<String>)>, k: Seq<char>)
    requires
        a.len() == b.len(),
        forall|j: int|
            0 <= j < a.len() ==> (#[trigger] a[j]).0@ == b[j].0@ && texts(a[j].1@) == texts(b[j].1@),
    ensures
        rules_for(a, k) == rules_for(b, k),
    decreases a.len(),
{
    if a.len() > 0 {
        assert forall|j: int| 0 <= j < a.len() - 1 implies (#[trigger] a.drop_first()[j]).0@
            == b.drop_first()[j].0@ && texts(a.drop_first()[j].1@) == texts(b.drop_first()[j].1@) by {
            assert(a.drop_first()[j] == a[j + 1]);
            assert(b.drop_first()[j] == b[j + 1]);
        }
        assert((a[0]).0@ == b[0].0@);
        lemma_rules_for_same(a.drop_first(), b.drop_first(), k);
    }
}

/// The session after one message, in place, and what the program around it
/// is to do, in order.
pub fn update(state: &mut State, busy: &Vec<String>, message: crate::coder_turn::Message) -> (fx: Vec<
    crate::coder_turn::Effect,
>)
    ensures
        crate::coder_turn::updated(*old(state), texts(busy@), message, *final(state), fx@),
{
    let mut now = State::with_root("", false, false);
    std::mem::swap(&mut now, state);
    let (next, fx) = now.step(busy, message);
    *state = next;
    fx
}

} // verus!
