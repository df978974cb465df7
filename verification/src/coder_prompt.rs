//! What a coder turn is handed besides the transcript: the files a message
//! points at with `@path`, inlined behind a marker, and the system-prompt
//! block that says what the workspace is and what this turn is for.
use vstd::prelude::*;
use crate::coder::TurnKind;
use crate::text::{bytes_len, chars_of, first_n, is_whitespace, is_ws, push_all, push_str, string_of, take_chars, texts, utf8_len};

verus! {

/// Where a message stops being what the user typed and starts being the files
/// they pointed at. Sent verbatim, so a reopened session can fold the same
/// tail away.
pub const MENTION_MARKER: &'static str = "\n\n--- files inlined from @mentions ---\n";

/// Inlined text per message, in bytes: one message big enough to make the
/// server drop history costs the thread its memory.
pub const MAX_MENTION_BYTES: usize = 32768;

/// The server's limit on the system-prompt block, in characters. A longer one
/// is refused and the turn does not run at all.
pub const MAX_MODE_INSTRUCTION: usize = 4096;

/// What the plan-gated first turn is for. It rides in the system prompt, so the
/// transcript keeps showing what the user typed.
pub const PLAN_GATE_ASK: &'static str = "\n\nFor this turn, write the plan and nothing else: numbered steps, the files you expect to read or change, and what you will check when it is done. At most five steps, no code. You have no tools this turn. The user reads it, edits it, and hands it back before anything runs.";

// ---------------------------------------------------------------------------
// Mentions
// ---------------------------------------------------------------------------

/// Splitting on whitespace, one character at a time: the words finished so far
/// and the word being read.
pub open spec fn scan_words(s: Seq<char>) -> (Seq<Seq<char>>, Seq<char>)
    decreases s.len(),
{
    if s.len() == 0 {
        (Seq::empty(), Seq::empty())
    } else {
        let (done, cur) = scan_words(s.drop_last());
        if is_ws(s.last()) {
            if cur.len() > 0 {
                (done.push(cur), Seq::empty())
            } else {
                (done, Seq::empty())
            }
        } else {
            (done, cur.push(s.last()))
        }
    }
}

/// The whitespace-separated words of `s`, none of them empty
/// (`str::split_whitespace`).
pub open spec fn words(s: Seq<char>) -> Seq<Seq<char>> {
    let (done, cur) = scan_words(s);
    if cur.len() > 0 {
        done.push(cur)
    } else {
        done
    }
}

/// Punctuation that ends a sentence rather than a path.
pub open spec fn closes_sentence(c: char) -> bool {
    c == ',' || c == '.' || c == ';' || c == ':' || c == ')' || c == '?' || c == '!'
}

/// `s` with trailing sentence punctuation removed.
pub open spec fn strip_closing(s: Seq<char>) -> Seq<char>
    decreases s.len(),
{
    if s.len() > 0 && closes_sentence(s.last()) {
        strip_closing(s.drop_last())
    } else {
        s
    }
}

/// The path a word mentions: what follows its leading `@`, less the
/// punctuation of the sentence around it.
pub open spec fn mention_of(w: Seq<char>) -> Option<Seq<char>> {
    if w.len() > 0 && w[0] == '@' {
        let rel = strip_closing(w.drop_first());
        if rel.len() > 0 {
            Some(rel)
        } else {
            None
        }
    } else {
        None
    }
}

/// The paths mentioned among `ws`, each once, in the order first mentioned.
pub open spec fn mentions_in(ws: Seq<Seq<char>>) -> Seq<Seq<char>>
    decreases ws.len(),
{
    if ws.len() == 0 {
        Seq::empty()
    } else {
        let before = mentions_in(ws.drop_last());
        match mention_of(ws.last()) {
            Some(rel) => if before.contains(rel) {
                before
            } else {
                before.push(rel)
            },
            None => before,
        }
    }
}

/// The paths a message mentions with `@`, each once, in order.
pub open spec fn mentions(prompt: Seq<char>) -> Seq<Seq<char>> {
    mentions_in(words(prompt))
}

/// The words of `v`.
fn split_words(v: &Vec<char>) -> (r: Vec<Vec<char>>)
    ensures
        crate::text::char_views(r@) == words(v@),
{
    let mut done: Vec<Vec<char>> = Vec::new();
    let mut cur: Vec<char> = Vec::new();
    let mut i: usize = 0;
    while i < v.len()
        invariant
            i <= v@.len(),
            (crate::text::char_views(done@), cur@) == scan_words(v@.take(i as int)),
        decreases v@.len() - i,
    {
        assert(v@.take(i + 1).drop_last() =~= v@.take(i as int));
        assert(v@.take(i + 1).last() == v@[i as int]);
        let c = v[i];
        if is_whitespace(c) {
            if cur.len() > 0 {
                let ghost d0 = done@;
                let w = cur;
                done.push(w);
                assert(crate::text::char_views(done@) =~= crate::text::char_views(d0).push(w@));
                cur = Vec::new();
            } else {
                cur = Vec::new();
            }
        } else {
            cur.push(c);
        }
        i = i + 1;
    }
    assert(v@.take(i as int) =~= v@);
    if cur.len() > 0 {
        let ghost d0 = done@;
        let w = cur;
        done.push(w);
        assert(crate::text::char_views(done@) =~= crate::text::char_views(d0).push(w@));
    }
    done
}

/// `w` less its trailing sentence punctuation.
fn strip_closing_chars(w: &Vec<char>) -> (r: Vec<char>)
    ensures
        r@ == strip_closing(w@),
{
    let mut n: usize = w.len();
    assert(w@.take(n as int) =~= w@);
    while n > 0 && (w[n - 1] == ',' || w[n - 1] == '.' || w[n - 1] == ';' || w[n - 1] == ':'
        || w[n - 1] == ')' || w[n - 1] == '?' || w[n - 1] == '!')
        invariant
            n <= w@.len(),
            strip_closing(w@) == strip_closing(w@.take(n as int)),
        decreases n,
    {
        assert(w@.take(n as int).drop_last() =~= w@.take(n - 1));
        n = n - 1;
    }
    assert(w@.take(w@.len() as int) =~= w@);
    let r = crate::text::slice_chars(w.as_slice(), 0, n);
    assert(r@ =~= w@.take(n as int));
    r
}

fn contains_chars_in(list: &Vec<String>, v: &Vec<char>) -> (r: bool)
    ensures
        r == texts(list@).contains(v@),
{
    let mut i: usize = 0;
    while i < list.len()
        invariant
            i <= list@.len(),
            forall|j: int| 0 <= j < i ==> (#[trigger] list@[j])@ != v@,
        decreases list@.len() - i,
    {
        let t = chars_of(list[i].as_str());
        if crate::text::chars_eq(t.as_slice(), v.as_slice()) {
            assert(texts(list@)[i as int] == v@);
            return true;
        }
        i = i + 1;
    }
    proof {
        if texts(list@).contains(v@) {
            let k = choose|k: int| 0 <= k < texts(list@).len() && texts(list@)[k] == v@;
            assert(list@[k]@ == v@);
        }
    }
    false
}

/// The paths a message points at with `@`, each once, in the order first
/// mentioned. Which of them are files is for the caller to find out.
pub fn mention_candidates(prompt: &str) -> (r: Vec<String>)
    ensures
        texts(r@) == mentions(prompt@),
{
    let v = chars_of(prompt);
    let ws = split_words(&v);
    let ghost wv = crate::text::char_views(ws@);
    let mut out: Vec<String> = Vec::new();
    let mut i: usize = 0;
    while i < ws.len()
        invariant
            i <= ws@.len(),
            wv == crate::text::char_views(ws@),
            texts(out@) == mentions_in(wv.take(i as int)),
        decreases ws@.len() - i,
    {
        assert(wv.take(i + 1).drop_last() =~= wv.take(i as int));
        assert(wv.take(i + 1).last() == ws@[i as int]@);
        let w = &ws[i];
        if w.len() > 0 && w[0] == '@' {
            let mut tail: Vec<char> = Vec::new();
            push_all(&mut tail, crate::text::slice_chars(w.as_slice(), 1, w.len()).as_slice());
            assert(tail@ =~= w@.drop_first());
            let rel = strip_closing_chars(&tail);
            if rel.len() > 0 && !contains_chars_in(&out, &rel) {
                let ghost o0 = out@;
                let s = string_of(rel.as_slice());
                out.push(s);
                proof {
                    crate::text::lemma_texts_push(o0, s);
                }
            }
        }
        i = i + 1;
    }
    assert(wv.take(i as int) =~= wv);
    out
}

/// The block one inlined file becomes.
pub open spec fn file_block(rel: Seq<char>, text: Seq<char>) -> Seq<char> {
    "\n`"@ + rel + "`:\n```\n"@ + text + "\n```\n"@
}

/// The files inlined from `files` with `budget` bytes to spend, in order; a
/// file that does not fit in what is left is passed over, and a smaller one
/// behind it may still fit.
pub open spec fn inlined(files: Seq<(Seq<char>, Seq<char>)>, budget: nat) -> Seq<char>
    decreases files.len(),
{
    if files.len() == 0 {
        Seq::empty()
    } else {
        let (rel, text) = files[0];
        if bytes_len(text) > budget {
            inlined(files.drop_first(), budget)
        } else {
            file_block(rel, text) + inlined(files.drop_first(), (budget - bytes_len(text)) as nat)
        }
    }
}

/// The message as sent: what was typed, then the marker and the inlined files
/// when any were.
pub open spec fn expanded(prompt: Seq<char>, files: Seq<(Seq<char>, Seq<char>)>) -> Seq<char> {
    let out = inlined(files, MAX_MENTION_BYTES as nat);
    if out.len() == 0 {
        prompt
    } else {
        prompt + MENTION_MARKER@ + out
    }
}

pub open spec fn file_views(files: Seq<(String, String)>) -> Seq<(Seq<char>, Seq<char>)> {
    files.map_values(|f: (String, String)| (f.0@, f.1@))
}

/// The UTF-8 length of `v` when it is at most `budget`.
fn bytes_within(v: &Vec<char>, budget: usize) -> (r: Option<usize>)
    ensures
        match r {
            Some(n) => n == bytes_len(v@) && n <= budget,
            None => bytes_len(v@) > budget,
        },
{
    let mut n: usize = 0;
    let mut i: usize = 0;
    while i < v.len()
        invariant
            i <= v@.len(),
            n <= budget,
            n == bytes_len(v@.take(i as int)),
        decreases v@.len() - i,
    {
        assert(v@.take(i + 1).drop_last() =~= v@.take(i as int));
        let u: u32 = v[i] as u32;
        let w: usize = if u < 0x80 {
            1
        } else if u < 0x800 {
            2
        } else if u < 0x10000 {
            3
        } else {
            4
        };
        assert(w == utf8_len(v@[i as int]));
        if w > budget - n {
            proof {
                crate::assistant::lemma_bytes_len_grows(v@, i as int);
            }
            return None;
        }
        n = n + w;
        i = i + 1;
    }
    assert(v@.take(i as int) =~= v@);
    Some(n)
}

/// The message with the mentioned files inlined. `files` holds, in the order
/// [`mention_candidates`] gave them, each mentioned path that turned out to be
/// a readable text file, with its text.
pub fn expand_mentions(prompt: &str, files: &Vec<(String, String)>) -> (r: String)
    ensures
        r@ == expanded(prompt@, file_views(files@)),
{
    let ghost fv = file_views(files@);
    let mut out: Vec<char> = Vec::new();
    let mut budget: usize = MAX_MENTION_BYTES;
    let mut i: usize = 0;
    assert(fv.skip(0) =~= fv);
    assert(out@ + inlined(fv, MAX_MENTION_BYTES as nat) =~= inlined(fv, MAX_MENTION_BYTES as nat));
    while i < files.len()
        invariant
            i <= files@.len(),
            fv == file_views(files@),
            budget <= MAX_MENTION_BYTES,
            out@ + inlined(fv.skip(i as int), budget as nat) == inlined(fv, MAX_MENTION_BYTES as nat),
        decreases files@.len() - i,
    {
        assert(fv.skip(i as int).drop_first() =~= fv.skip(i + 1));
        assert(fv.skip(i as int)[0] == (files@[i as int].0@, files@[i as int].1@));
        let text = chars_of(files[i].1.as_str());
        match bytes_within(&text, budget) {
            Some(n) => {
                let ghost o0 = out@;
                push_str(&mut out, "\n`");
                push_str(&mut out, files[i].0.as_str());
                push_str(&mut out, "`:\n```\n");
                push_all(&mut out, text.as_slice());
                push_str(&mut out, "\n```\n");
                assert(out@ =~= o0 + file_block(files@[i as int].0@, files@[i as int].1@));
                budget = budget - n;
            },
            None => {},
        }
        i = i + 1;
    }
    assert(fv.skip(i as int) =~= Seq::<(Seq<char>, Seq<char>)>::empty());
    assert(out@ =~= inlined(fv, MAX_MENTION_BYTES as nat));
    if out.len() == 0 {
        prompt.to_owned()
    } else {
        let mut all = chars_of(prompt);
        push_str(&mut all, MENTION_MARKER);
        push_all(&mut all, out.as_slice());
        string_of(all.as_slice())
    }
}

// ---------------------------------------------------------------------------
// The system-prompt block
// ---------------------------------------------------------------------------

/// The block for a turn: the agent's notes on the workspace, the project's own
/// rules after them, and the plan-gate ask last, capped as a whole; nothing
/// without a folder.
pub open spec fn mode_instruction_spec(
    root: Option<Seq<char>>,
    kind: TurnKind,
    notes: Seq<char>,
    agents: Option<Seq<char>>,
) -> Option<Seq<char>> {
    match root {
        None => None,
        Some(_) => {
            let a = match agents {
                Some(t) => t,
                None => Seq::empty(),
            };
            let ask = if kind == TurnKind::Plan {
                PLAN_GATE_ASK@
            } else {
                Seq::empty()
            };
            Some(first_n(notes + a + ask, MAX_MODE_INSTRUCTION as nat))
        },
    }
}

pub open spec fn opt_view(o: Option<String>) -> Option<Seq<char>> {
    match o {
        Some(s) => Some(s@),
        None => None,
    }
}

/// The system-prompt block for a turn in `root`. What the workspace notes and
/// the project's `AGENTS.md` say is read off the disk by the caller.
pub fn mode_instruction(root: &Option<String>, kind: TurnKind, notes: &str, agents: Option<&str>) -> (r:
    Option<String>)
    ensures
        opt_view(r) == mode_instruction_spec(
            opt_view(*root),
            kind,
            notes@,
            match agents {
                Some(t) => Some(t@),
                None => None,
            },
        ),
{
    if root.is_none() {
        return None;
    }
    let mut block = chars_of(notes);
    match agents {
        Some(t) => push_str(&mut block, t),
        None => {},
    }
    let ghost before_ask = block@;
    if kind == TurnKind::Plan {
        push_str(&mut block, PLAN_GATE_ASK);
    }
    proof {
        let a = match agents {
            Some(t) => t@,
            None => Seq::<char>::empty(),
        };
        assert(before_ask =~= notes@ + a);
        if kind != TurnKind::Plan {
            assert(block@ =~= notes@ + a + Seq::<char>::empty());
        }
    }
    let capped = take_chars(block.as_slice(), MAX_MODE_INSTRUCTION);
    Some(string_of(capped.as_slice()))
}


// ---------------------------------------------------------------------------
// Laws
// ---------------------------------------------------------------------------

/// What was typed always leads the message: inlining only ever adds after it.
pub proof fn typed_text_leads_the_message(prompt: Seq<char>, files: Seq<(Seq<char>, Seq<char>)>)
    ensures
        prompt.is_prefix_of(expanded(prompt, files)),
        inlined(files, MAX_MENTION_BYTES as nat).len() == 0 ==> expanded(prompt, files) == prompt,
{
    let out = inlined(files, MAX_MENTION_BYTES as nat);
    if out.len() > 0 {
        assert(expanded(prompt, files) =~= prompt + (MENTION_MARKER@ + out));
    }
}

/// A path mentioned more than once is inlined once: the candidates hold no
/// path twice.
pub proof fn each_mention_is_taken_once(prompt: Seq<char>)
    ensures
        mentions(prompt).no_duplicates(),
{
    lemma_mentions_in_distinct(words(prompt));
}

proof fn lemma_mentions_in_distinct(ws: Seq<Seq<char>>)
    ensures
        mentions_in(ws).no_duplicates(),
    decreases ws.len(),
{
    if ws.len() > 0 {
        lemma_mentions_in_distinct(ws.drop_last());
        let before = mentions_in(ws.drop_last());
        match mention_of(ws.last()) {
            Some(rel) => {
                if !before.contains(rel) {
                    assert forall|i: int, j: int|
                        0 <= i < j < before.push(rel).len() implies before.push(rel)[i] != before.push(rel)[j] by {
                        if j == before.len() {
                            assert(before[i] == before.push(rel)[i]);
                        }
                    }
                }
            },
            None => {},
        }
    }
}

/// The inlined files never take more than their budget of bytes of file text.
pub proof fn inlining_keeps_to_its_budget(files: Seq<(Seq<char>, Seq<char>)>, budget: nat)
    ensures
        inlined_bytes(files, budget) <= budget,
    decreases files.len(),
{
    if files.len() > 0 {
        let (rel, text) = files[0];
        if bytes_len(text) > budget {
            inlining_keeps_to_its_budget(files.drop_first(), budget);
        } else {
            inlining_keeps_to_its_budget(files.drop_first(), (budget - bytes_len(text)) as nat);
        }
    }
}

/// How many bytes of file text [`inlined`] takes in.
pub open spec fn inlined_bytes(files: Seq<(Seq<char>, Seq<char>)>, budget: nat) -> nat
    decreases files.len(),
{
    if files.len() == 0 {
        0
    } else {
        let (rel, text) = files[0];
        if bytes_len(text) > budget {
            inlined_bytes(files.drop_first(), budget)
        } else {
            bytes_len(text) + inlined_bytes(files.drop_first(), (budget - bytes_len(text)) as nat)
        }
    }
}

/// The system-prompt block always fits the server's field, and a plan turn's
/// block ends with the plan ask whenever what comes before it leaves room.
pub proof fn the_block_fits_the_field(
    root: Option<Seq<char>>,
    kind: TurnKind,
    notes: Seq<char>,
    agents: Option<Seq<char>>,
)
    ensures
        match mode_instruction_spec(root, kind, notes, agents) {
            Some(b) => b.len() <= MAX_MODE_INSTRUCTION,
            None => root is None,
        },
        ({
            let a = match agents {
                Some(t) => t,
                None => Seq::empty(),
            };
            root is Some && kind == TurnKind::Plan && (notes + a + PLAN_GATE_ASK@).len()
                <= MAX_MODE_INSTRUCTION ==> mode_instruction_spec(root, kind, notes, agents) == Some(
                notes + a + PLAN_GATE_ASK@,
            )
        }),
{
}

/// The blocks of the files a mask picks, in the files' order.
pub open spec fn picked_blocks(files: Seq<(Seq<char>, Seq<char>)>, mask: Seq<bool>) -> Seq<char>
    decreases files.len(),
{
    if files.len() == 0 || mask.len() == 0 {
        Seq::empty()
    } else {
        (if mask[0] { file_block(files[0].0, files[0].1) } else { Seq::empty() }) + picked_blocks(
            files.drop_first(),
            mask.drop_first(),
        )
    }
}

/// The UTF-8 bytes of file text of the files a mask picks.
pub open spec fn picked_bytes(files: Seq<(Seq<char>, Seq<char>)>, mask: Seq<bool>) -> nat
    decreases files.len(),
{
    if files.len() == 0 || mask.len() == 0 {
        0
    } else {
        (if mask[0] { bytes_len(files[0].1) } else { 0nat }) + picked_bytes(files.drop_first(), mask.drop_first())
    }
}

/// Whether each file of a mask is picked exactly when its text fits in what
/// the files picked before it left of `budget`.
pub open spec fn picked_when_it_fits(files: Seq<(Seq<char>, Seq<char>)>, mask: Seq<bool>, budget: nat) -> bool {
    forall|i: int|
        0 <= i < files.len() ==> #[trigger] mask[i] == (picked_bytes(files.take(i), mask.take(i)) + bytes_len(
            files[i].1,
        ) <= budget)
}

proof fn lemma_picked_bytes_prefix(files: Seq<(Seq<char>, Seq<char>)>, mask: Seq<bool>, i: int)
    requires
        0 < i <= files.len(),
        mask.len() == files.len(),
    ensures
        picked_bytes(files.take(i), mask.take(i)) == (if mask[0] { bytes_len(files[0].1) } else { 0nat })
            + picked_bytes(files.drop_first().take(i - 1), mask.drop_first().take(i - 1)),
{
    assert(files.take(i).drop_first() =~= files.drop_first().take(i - 1));
    assert(mask.take(i).drop_first() =~= mask.drop_first().take(i - 1));
}

/// What gets inlined is some of the mentioned files, in the order they were
/// mentioned, each as its own block, whose file text together takes no more
/// than the budget: two files that do not both fit are never both inlined.
/// A file is inlined exactly when its text fits in what the files inlined
/// before it left; one that does not fit is passed over, and a smaller one
/// after it may still be inlined.
pub proof fn inlined_files_fit_the_budget(files: Seq<(Seq<char>, Seq<char>)>, budget: nat)
    ensures
        exists|mask: Seq<bool>|
            mask.len() == files.len() && #[trigger] picked_blocks(files, mask) == inlined(files, budget)
                && picked_bytes(files, mask) <= budget && picked_when_it_fits(files, mask, budget),
    decreases files.len(),
{
    if files.len() == 0 {
        let mask = Seq::<bool>::empty();
        assert(picked_blocks(files, mask) == inlined(files, budget));
    } else {
        let (rel, text) = files[0];
        let rest = files.drop_first();
        let fits = bytes_len(text) <= budget;
        let b2: nat = if fits { (budget - bytes_len(text)) as nat } else { budget };
        inlined_files_fit_the_budget(rest, b2);
        let m = choose|mask: Seq<bool>|
            mask.len() == rest.len() && #[trigger] picked_blocks(rest, mask) == inlined(rest, b2)
                && picked_bytes(rest, mask) <= b2 && picked_when_it_fits(rest, mask, b2);
        let mask = seq![fits] + m;
        assert(mask.drop_first() =~= m);
        assert(mask[0] == fits);
        if fits {
            assert(picked_blocks(files, mask) == file_block(rel, text) + inlined(rest, b2));
        } else {
            assert(picked_blocks(files, mask) =~= inlined(rest, b2));
        }
        assert(picked_blocks(files, mask) == inlined(files, budget));
        assert forall|i: int| 0 <= i < files.len() implies #[trigger] mask[i] == (picked_bytes(
            files.take(i),
            mask.take(i),
        ) + bytes_len(files[i].1) <= budget) by {
            if i == 0 {
                assert(files.take(0) =~= Seq::<(Seq<char>, Seq<char>)>::empty());
            } else {
                lemma_picked_bytes_prefix(files, mask, i);
                assert(mask[i] == m[i - 1]);
                assert(files[i] == rest[i - 1]);
                assert(m[i - 1] == (picked_bytes(rest.take(i - 1), m.take(i - 1)) + bytes_len(rest[i - 1].1) <= b2));
            }
        }
    }
}

/// The message sent for a prompt with @mentions: what was typed, then, when
/// any file fits, the marker and some of the files in order, whose file text
/// together stays within [`MAX_MENTION_BYTES`], each taken exactly when it
/// fits in what the ones before it left.
pub proof fn mentions_stay_within_their_budget(prompt: Seq<char>, files: Seq<(Seq<char>, Seq<char>)>)
    ensures
        exists|mask: Seq<bool>|
            mask.len() == files.len() && picked_bytes(files, mask) <= MAX_MENTION_BYTES
                && picked_when_it_fits(files, mask, MAX_MENTION_BYTES as nat) && #[trigger] picked_blocks(
                files,
                mask,
            ) == inlined(files, MAX_MENTION_BYTES as nat) && expanded(prompt, files) == if picked_blocks(
                files,
                mask,
            ).len() == 0 {
                prompt
            } else {
                prompt + MENTION_MARKER@ + picked_blocks(files, mask)
            },
{
    inlined_files_fit_the_budget(files, MAX_MENTION_BYTES as nat);
}

} // verus!
