//! Text-to-speech text handling: what gets spoken, how a streaming reply is
//! cut into sentences, and which long-form Edge voice a short id names.
use vstd::prelude::*;
use crate::text::{
    blank, chars_of, first_non_ws, is_ascii_ws, is_ws, lemma_first_non_ws, lemma_squash_shape,
    lemma_trim_start_skip, push_all, push_str, skip_ws, slice_chars, squash, squash_chars, squash_state, squashed,
    string_of, trim, trim_chars, trim_start, utf8_len, bytes_len,
};

verus! {

/// The voice Edge speaks in until the user picks another, as a short id.
pub const DEFAULT_VOICE: &'static str = "en-US-AriaNeural";

/// Shortest chunk worth sending to the synthesizer.
pub const MIN_SPEECH_CHUNK: usize = 24;

/// The chunk that opens a reply breaks earlier (and on a comma too).
pub const MIN_FIRST_CHUNK: usize = 12;

/// Speech rates the settings screen offers, as Edge's percent-of-normal.
pub const DEFAULT_VOICE_RATE: i32 = 15;

/// How far the adaptive nudge may push the rate either side of the setting.
pub const RATE_SPAN: i32 = 20;

// ---------------------------------------------------------------------------
// Edge voice names
// ---------------------------------------------------------------------------

/// Index of the last `-`, if any.
pub open spec fn last_dash(s: Seq<char>) -> Option<int>
    decreases s.len(),
{
    if s.len() == 0 {
        None
    } else if s.last() == '-' {
        Some(s.len() - 1)
    } else {
        last_dash(s.drop_last())
    }
}

/// The long form Edge wants: `<locale>-<Voice>` becomes
/// `Microsoft Server Speech Text to Speech Voice (<locale>, <Voice>)`, split at
/// the last dash. Empty means the default voice; anything that is not
/// `<locale>-<Voice>` (no dash, or nothing on one side of the last one)
/// falls back to the default's long form.
pub open spec fn edge_voice_spec(short: Seq<char>) -> Seq<char> {
    let s = if short.len() == 0 {
        DEFAULT_VOICE@
    } else {
        short
    };
    match last_dash(s) {
        Some(k) => if k == 0 || k + 1 == s.len() {
            "Microsoft Server Speech Text to Speech Voice (en-US, AriaNeural)"@
        } else {
            "Microsoft Server Speech Text to Speech Voice ("@ + s.take(k) + ", "@ + s.skip(k + 1)
            + ")"@
        },
        None => "Microsoft Server Speech Text to Speech Voice (en-US, AriaNeural)"@,
    }
}

/// Expand a short voice id to Edge's long form.
pub fn edge_voice(short: &str) -> (r: String)
    ensures
        r@ == edge_voice_spec(short@),
{
    let given = chars_of(short);
    let s = if given.len() == 0 {
        chars_of(DEFAULT_VOICE)
    } else {
        given
    };
    let mut k: usize = s.len();
    assert(s@.take(s@.len() as int) =~= s@);
    while k > 0 && s[k - 1] != '-'
        invariant
            k <= s@.len(),
            last_dash(s@) == last_dash(s@.take(k as int)),
        decreases k,
    {
        assert(s@.take(k as int).drop_last() =~= s@.take(k - 1));
        k = k - 1;
    }
    if k == 0 {
        assert(s@.take(0) =~= Seq::<char>::empty());
        return String::from_str("Microsoft Server Speech Text to Speech Voice (en-US, AriaNeural)");
    }
    assert(last_dash(s@.take(k as int)) == Some(k - 1));
    if k == 1 || k == s.len() {
        return String::from_str("Microsoft Server Speech Text to Speech Voice (en-US, AriaNeural)");
    }
    let mut out: Vec<char> = Vec::new();
    push_str(&mut out, "Microsoft Server Speech Text to Speech Voice (");
    let locale = slice_chars(&s, 0, k - 1);
    push_all(&mut out, &locale);
    push_str(&mut out, ", ");
    let voice = slice_chars(&s, k, s.len());
    push_all(&mut out, &voice);
    push_str(&mut out, ")");
    assert(s@.subrange(0, k - 1) =~= s@.take(k - 1));
    assert(s@.subrange(k as int, s@.len() as int) =~= s@.skip(k as int));
    string_of(&out)
}

// ---------------------------------------------------------------------------
// Sentences
// ---------------------------------------------------------------------------

/// Characters that end a sentence. The opening chunk also ends at a comma.
pub open spec fn is_terminator(c: char, first: bool) -> bool {
    c == '.' || c == '!' || c == '?' || c == '\n' || c == ';' || c == ':' || (first && c == ',')
}

/// The character at `k` closes a sentence: a terminator, followed by
/// whitespace or the end of the text, whose byte offset plus one reaches the
/// minimum chunk length.
pub open spec fn closes_at(b: Seq<char>, k: int, first: bool) -> bool {
    let min: nat = if first {
        MIN_FIRST_CHUNK as nat
    } else {
        MIN_SPEECH_CHUNK as nat
    };
    &&& 0 <= k < b.len()
    &&& bytes_len(b.take(k)) + 1 >= min
    &&& is_terminator(b[k], first)
    &&& (k + 1 == b.len() || is_ascii_ws(b[k + 1]))
}

/// The first index at or after `k` where a sentence closes.
pub open spec fn cut_from(b: Seq<char>, first: bool, k: int) -> Option<int>
    decreases b.len() - k,
{
    if k < 0 || k >= b.len() {
        None
    } else if closes_at(b, k, first) {
        Some(k)
    } else {
        cut_from(b, first, k + 1)
    }
}

/// Where the first complete sentence of `b` ends (inclusive).
pub open spec fn sentence_cut(b: Seq<char>, first: bool) -> Option<int> {
    cut_from(b, first, 0)
}

proof fn lemma_cut_from_found(b: Seq<char>, first: bool, k: int)
    requires
        0 <= k,
        cut_from(b, first, k) is Some,
    ensures
        k <= cut_from(b, first, k)->0 < b.len(),
        closes_at(b, cut_from(b, first, k)->0, first),
        forall|j: int| k <= j < cut_from(b, first, k)->0 ==> !closes_at(b, j, first),
    decreases b.len() - k,
{
    if !closes_at(b, k, first) {
        lemma_cut_from_found(b, first, k + 1);
    }
}

/// Split off the first complete sentence, leaving the remainder — minus the
/// whitespace that separated it — in `buf`. `None`, with `buf` untouched,
/// while no sentence of usable length has closed yet.
pub fn take_sentence(buf: &mut String, first: bool) -> (r: Option<String>)
    ensures
        match sentence_cut(old(buf)@, first) {
            None => r is None && final(buf)@ == old(buf)@,
            Some(k) => r is Some && r->0@ == old(buf)@.take(k + 1) && final(buf)@ == trim_start(
                old(buf)@.skip(k + 1),
            ),
        },
{
    let b = chars_of(buf.as_str());
    let ghost bs = b@;
    let min: usize = if first {
        MIN_FIRST_CHUNK
    } else {
        MIN_SPEECH_CHUNK
    };
    // Byte offset of `b[k]`, capped: only whether it has reached `min` matters.
    let mut off: usize = 0;
    let mut k: usize = 0;
    while k < b.len()
        invariant
            b@ == bs,
            bs == old(buf)@,
            buf@ == old(buf)@,
            k <= bs.len(),
            min == (if first {
                MIN_FIRST_CHUNK
            } else {
                MIN_SPEECH_CHUNK
            }),
            off == (if bytes_len(bs.take(k as int)) < 64 {
                bytes_len(bs.take(k as int))
            } else {
                64
            }),
            sentence_cut(bs, first) == cut_from(bs, first, k as int),
        decreases bs.len() - k,
    {
        let c = b[k];
        let terminator = c == '.' || c == '!' || c == '?' || c == '\n' || c == ';' || c == ':' || (
        first && c == ',');
        let next_ok = k + 1 == b.len() || {
            let d = b[k + 1];
            d == ' ' || d == '\t' || d == '\n' || d == '\x0C' || d == '\r'
        };
        if off + 1 >= min && terminator && next_ok {
            assert(closes_at(bs, k as int, first));
            let sentence = slice_chars(&b, 0, k + 1);
            let start = skip_ws(&b, k + 1);
            let rest = slice_chars(&b, start, b.len());
            proof {
                let tail = bs.skip(k + 1);
                assert forall|j: int| 0 <= j < start - (k + 1) implies is_ws(#[trigger] tail[j]) by {
                    assert(tail[j] == bs[j + k + 1]);
                }
                if start < bs.len() {
                    assert(tail[start - (k + 1)] == bs[start as int]);
                }
                lemma_trim_start_skip(tail, start - (k + 1));
                assert(tail.skip(start - (k + 1)) =~= bs.subrange(start as int, bs.len() as int));
                assert(bs.subrange(0, k + 1) =~= bs.take(k + 1));
            }
            *buf = string_of(&rest);
            return Some(string_of(&sentence));
        }
        proof {
            assert(!closes_at(bs, k as int, first));
            assert(bs.take(k + 1).drop_last() =~= bs.take(k as int));
            assert(bs.take(k + 1).last() == c);
        }
        let u: u32 = c as u32;
        let w: usize = if u < 0x80 {
            1
        } else if u < 0x800 {
            2
        } else if u < 0x10000 {
            3
        } else {
            4
        };
        off = if off + w < 64 {
            off + w
        } else {
            64
        };
        k = k + 1;
    }
    assert(sentence_cut(bs, first) is None);
    None
}

/// Nothing is lost when a sentence is split off: the sentence, some
/// whitespace, and the remainder put back together are the buffer.
/// Where a sentence is cut lies inside the buffer.
pub proof fn lemma_sentence_cut_range(b: Seq<char>, first: bool)
    ensures
        match sentence_cut(b, first) {
            Some(k) => 0 <= k < b.len(),
            None => true,
        },
{
    if sentence_cut(b, first) is Some {
        lemma_cut_from_found(b, first, 0);
    }
}

pub proof fn lemma_sentence_split_keeps_text(b: Seq<char>, first: bool)
    requires
        sentence_cut(b, first) is Some,
    ensures
        ({
            let k = sentence_cut(b, first)->0;
            let gap = first_non_ws(b.skip(k + 1));
            &&& blank(b.skip(k + 1).take(gap))
            &&& b == b.take(k + 1) + b.skip(k + 1).take(gap) + trim_start(b.skip(k + 1))
        }),
{
    lemma_cut_from_found(b, first, 0);
    let k = sentence_cut(b, first)->0;
    let tail = b.skip(k + 1);
    lemma_first_non_ws(tail);
    let gap = first_non_ws(tail);
    lemma_trim_start_skip(tail, gap);
    assert(tail.take(gap) + tail.skip(gap) =~= tail);
    assert(b.take(k + 1) + tail =~= b);
    assert(b.take(k + 1) + tail.take(gap) + tail.skip(gap) =~= b);
}

/// A sentence that is split off always ends on a terminator and is long
/// enough to be worth a clip of its own.
pub proof fn lemma_sentence_is_closed(b: Seq<char>, first: bool)
    requires
        sentence_cut(b, first) is Some,
    ensures
        closes_at(b, sentence_cut(b, first)->0, first),
        is_terminator(b[sentence_cut(b, first)->0], first),
{
    lemma_cut_from_found(b, first, 0);
}

// ---------------------------------------------------------------------------
// Markdown to speech
// ---------------------------------------------------------------------------

/// `b` after its first `)`, or empty when it has none (a link's url swallowed).
pub open spec fn skip_past_paren(b: Seq<char>) -> Seq<char>
    decreases b.len(),
{
    if b.len() == 0 {
        b
    } else if b[0] == ')' {
        b.drop_first()
    } else {
        skip_past_paren(b.drop_first())
    }
}

pub proof fn lemma_skip_past_paren_len(b: Seq<char>)
    ensures
        skip_past_paren(b).len() <= b.len(),
    decreases b.len(),
{
    if b.len() > 0 && b[0] != ')' {
        lemma_skip_past_paren_len(b.drop_first());
    }
}

/// What one line says once its markup is dropped: emphasis and code marks
/// vanish, a link keeps its text and loses its `(url)`, an image's `!` goes.
pub open spec fn line_speech(b: Seq<char>) -> Seq<char>
    decreases b.len(),
{
    if b.len() == 0 {
        Seq::empty()
    } else {
        let c = b[0];
        let r = b.drop_first();
        if c == '*' || c == '_' || c == '`' || c == '~' {
            line_speech(r)
        } else if c == '!' && r.len() > 0 && r[0] == '[' {
            line_speech(r)
        } else if c == '[' {
            line_speech(r)
        } else if c == ']' {
            if r.len() > 0 && r[0] == '(' {
                proof {
                    lemma_skip_past_paren_len(r);
                }
                line_speech(skip_past_paren(r))
            } else {
                line_speech(r)
            }
        } else {
            seq![c] + line_speech(r)
        }
    }
}

/// Heading, list and quote markers carry no speech.
pub open spec fn is_marker(c: char) -> bool {
    c == '#' || c == '>' || c == '-' || c == '+' || c == ' '
}

pub open spec fn strip_markers(s: Seq<char>) -> Seq<char>
    decreases s.len(),
{
    if s.len() > 0 && is_marker(s[0]) {
        strip_markers(s.drop_first())
    } else {
        s
    }
}

/// A code fence opens or closes on a line beginning with three backticks.
pub open spec fn is_fence(line: Seq<char>) -> bool {
    line.len() >= 3 && line[0] == '`' && line[1] == '`' && line[2] == '`'
}

/// One line folded into the spoken text so far: `(text, inside a fence)`.
/// A fence says "Code omitted." once where it opens; what it holds is silent.
pub open spec fn speech_step(out: Seq<char>, fence: bool, line: Seq<char>) -> (Seq<char>, bool) {
    let t = trim(line);
    if is_fence(t) {
        (if !fence {
            out + "Code omitted. "@
        } else {
            out
        }, !fence)
    } else if fence {
        (out, fence)
    } else {
        (out + line_speech(strip_markers(t)) + seq![' '], fence)
    }
}

/// The scan over a document: `(text, in a fence, the line being read)`,
/// lines ending at each `\n`.
pub open spec fn speech_scan(s: Seq<char>) -> (Seq<char>, bool, Seq<char>)
    decreases s.len(),
{
    if s.len() == 0 {
        (Seq::empty(), false, Seq::empty())
    } else {
        let prev = speech_scan(s.drop_last());
        if s.last() == '\n' {
            let st = speech_step(prev.0, prev.1, prev.2);
            (st.0, st.1, Seq::empty())
        } else {
            (prev.0, prev.1, prev.2.push(s.last()))
        }
    }
}

/// What the voice says for a markdown reply: every line's speech, the
/// unfinished last line included, with whitespace squeezed to single spaces.
pub open spec fn speech_text_spec(md: Seq<char>) -> Seq<char> {
    let st = speech_scan(md);
    let text = if st.2.len() > 0 {
        speech_step(st.0, st.1, st.2).0
    } else {
        st.0
    };
    squash(text)
}

proof fn lemma_skip_past_paren_scan(b: Seq<char>, a: int, j: int)
    requires
        0 <= a <= j <= b.len(),
        forall|t: int| a <= t < j ==> b[t] != ')',
    ensures
        skip_past_paren(b.skip(a)) == skip_past_paren(b.skip(j)),
    decreases j - a,
{
    if a < j {
        assert(b.skip(a)[0] == b[a]);
        assert(b.skip(a).drop_first() =~= b.skip(a + 1));
        lemma_skip_past_paren_scan(b, a + 1, j);
    }
}

/// Append the speech of the line `b` to `out`.
fn push_line_speech(out: &mut Vec<char>, b: &[char])
    ensures
        final(out)@ == old(out)@ + line_speech(b@),
{
    let ghost start = old(out)@;
    let mut i: usize = 0;
    assert(b@.skip(0) =~= b@);
    while i < b.len()
        invariant
            i <= b@.len(),
            start + line_speech(b@) == out@ + line_speech(b@.skip(i as int)),
        decreases b@.len() - i,
    {
        let c = b[i];
        let ghost rest = b@.skip(i + 1);
        assert(b@.skip(i as int)[0] == c);
        assert(b@.skip(i as int).drop_first() =~= rest);
        if c == '*' || c == '_' || c == '`' || c == '~' {
            i = i + 1;
        } else if c == '!' && i + 1 < b.len() && b[i + 1] == '[' {
            assert(rest[0] == b@[i + 1]);
            i = i + 1;
        } else if c == '[' {
            i = i + 1;
        } else if c == ']' {
            if i + 1 < b.len() && b[i + 1] == '(' {
                assert(rest[0] == b@[i + 1]);
                let mut j: usize = i + 1;
                while j < b.len() && b[j] != ')'
                    invariant
                        i + 1 <= j <= b@.len(),
                        forall|t: int| i + 1 <= t < j ==> b@[t] != ')',
                    decreases b@.len() - j,
                {
                    j = j + 1;
                }
                proof {
                    lemma_skip_past_paren_scan(b@, i + 1, j as int);
                    if j < b.len() {
                        assert(b@.skip(j as int)[0] == ')');
                        assert(b@.skip(j as int).drop_first() =~= b@.skip(j + 1));
                    } else {
                        assert(b@.skip(j as int).len() == 0);
                    }
                }
                i = if j < b.len() {
                    j + 1
                } else {
                    j
                };
            } else {
                i = i + 1;
            }
        } else {
            let ghost before = out@;
            out.push(c);
            i = i + 1;
            assert(seq![c] + line_speech(rest) == line_speech(b@.skip((i - 1) as int)));
            assert(out@ + line_speech(rest) =~= before + (seq![c] + line_speech(rest)));
        }
    }
    assert(b@.skip(b@.len() as int).len() == 0);
    assert(out@ + line_speech(b@.skip(b@.len() as int)) =~= out@);
}

proof fn lemma_strip_markers_skip(s: Seq<char>, i: int)
    requires
        0 <= i <= s.len(),
        forall|j: int| 0 <= j < i ==> is_marker(#[trigger] s[j]),
        i == s.len() || !is_marker(s[i]),
    ensures
        strip_markers(s) == s.skip(i),
    decreases i,
{
    if i == 0 {
        assert(s.skip(0) =~= s);
    } else {
        let t = s.drop_first();
        assert forall|j: int| 0 <= j < i - 1 implies is_marker(#[trigger] t[j]) by {
            assert(t[j] == s[j + 1]);
        }
        lemma_strip_markers_skip(t, i - 1);
        assert(t.skip(i - 1) =~= s.skip(i));
    }
}

/// Fold one line into the spoken text; returns whether a fence is now open.
fn speech_line(out: &mut Vec<char>, fence: bool, line: &[char]) -> (r: bool)
    ensures
        (final(out)@, r) == speech_step(old(out)@, fence, line@),
{
    let t = trim_chars(line);
    if t.len() >= 3 && t[0] == '`' && t[1] == '`' && t[2] == '`' {
        if !fence {
            push_str(out, "Code omitted. ");
        }
        return !fence;
    }
    if fence {
        return fence;
    }
    let mut i: usize = 0;
    while i < t.len() && (t[i] == '#' || t[i] == '>' || t[i] == '-' || t[i] == '+' || t[i] == ' ')
        invariant
            i <= t@.len(),
            forall|j: int| 0 <= j < i ==> is_marker(#[trigger] t@[j]),
        decreases t@.len() - i,
    {
        i = i + 1;
    }
    proof {
        lemma_strip_markers_skip(t@, i as int);
    }
    let body = slice_chars(&t, i, t.len());
    assert(t@.subrange(i as int, t@.len() as int) =~= t@.skip(i as int));
    push_line_speech(out, &body);
    out.push(' ');
    fence
}

/// What the voice actually says: markdown stripped, so the assistant never
/// reads "asterisk asterisk" or a wall of code aloud.
pub fn speech_text(md: &str) -> (r: String)
    ensures
        r@ == speech_text_spec(md@),
{
    let v = chars_of(md);
    let mut out: Vec<char> = Vec::new();
    let mut fence: bool = false;
    let mut line: Vec<char> = Vec::new();
    let mut i: usize = 0;
    while i < v.len()
        invariant
            i <= v@.len(),
            (out@, fence, line@) == speech_scan(v@.take(i as int)),
        decreases v@.len() - i,
    {
        let c = v[i];
        proof {
            assert(v@.take(i + 1).drop_last() =~= v@.take(i as int));
            assert(v@.take(i + 1).last() == c);
        }
        if c == '\n' {
            fence = speech_line(&mut out, fence, &line);
            line = Vec::new();
        } else {
            line.push(c);
        }
        i = i + 1;
    }
    assert(v@.take(v@.len() as int) =~= v@);
    if line.len() > 0 {
        let _ = speech_line(&mut out, fence, &line);
    }
    let squashed = squash_chars(&out);
    string_of(&squashed)
}

/// Spoken text is always tidy: no leading or trailing whitespace, and never
/// two spaces in a row.
pub proof fn lemma_speech_text_is_squashed(md: Seq<char>)
    ensures
        squashed(speech_text_spec(md)),
{
    let st = speech_scan(md);
    let text = if st.2.len() > 0 {
        speech_step(st.0, st.1, st.2).0
    } else {
        st.0
    };
    lemma_squash_shape(text);
}

/// A character that is markdown markup for emphasis, code or links.
pub open spec fn is_markup(c: char) -> bool {
    c == '*' || c == '_' || c == '`' || c == '~' || c == '[' || c == ']'
}

/// Text that holds no such character.
pub open spec fn markup_free(s: Seq<char>) -> bool {
    forall|i: int| 0 <= i < s.len() ==> !is_markup(#[trigger] s[i])
}

proof fn lemma_line_speech_markup_free(b: Seq<char>)
    ensures
        markup_free(line_speech(b)),
    decreases b.len(),
{
    if b.len() > 0 {
        let c = b[0];
        let r = b.drop_first();
        if c == ']' && r.len() > 0 && r[0] == '(' {
            lemma_skip_past_paren_len(r);
            lemma_line_speech_markup_free(skip_past_paren(r));
        } else {
            lemma_line_speech_markup_free(r);
            if !(c == '*' || c == '_' || c == '`' || c == '~' || (c == '!' && r.len() > 0 && r[0] == '[') || c
                == '[' || c == ']') {
                let t = line_speech(r);
                assert forall|i: int| 0 <= i < (seq![c] + t).len() implies !is_markup(#[trigger] (seq![c] + t)[i]) by {
                    if i > 0 {
                        assert((seq![c] + t)[i] == t[i - 1]);
                    }
                }
            }
        }
    }
}

proof fn lemma_step_markup_free(out: Seq<char>, fence: bool, line: Seq<char>)
    requires
        markup_free(out),
    ensures
        markup_free(speech_step(out, fence, line).0),
{
    reveal_strlit("Code omitted. ");
    lemma_line_speech_markup_free(strip_markers(trim(line)));
    let l = line_speech(strip_markers(trim(line)));
    let a = out + "Code omitted. "@;
    assert forall|i: int| 0 <= i < a.len() implies !is_markup(#[trigger] a[i]) by {
        if i >= out.len() {
            assert(a[i] == "Code omitted. "@[i - out.len()]);
        }
    }
    let b = out + l + seq![' '];
    assert forall|i: int| 0 <= i < b.len() implies !is_markup(#[trigger] b[i]) by {
        if i < out.len() {
            assert(b[i] == out[i]);
        } else if i < out.len() + l.len() {
            assert(b[i] == l[i - out.len()]);
        }
    }
}

proof fn lemma_scan_markup_free(s: Seq<char>)
    ensures
        markup_free(speech_scan(s).0),
    decreases s.len(),
{
    if s.len() > 0 {
        lemma_scan_markup_free(s.drop_last());
        let prev = speech_scan(s.drop_last());
        if s.last() == '\n' {
            lemma_step_markup_free(prev.0, prev.1, prev.2);
        }
    }
}

proof fn lemma_squash_markup_free(s: Seq<char>)
    requires
        markup_free(s),
    ensures
        markup_free(squash_state(s).0),
    decreases s.len(),
{
    if s.len() > 0 {
        assert(markup_free(s.drop_last())) by {
            assert forall|i: int| 0 <= i < s.drop_last().len() implies !is_markup(#[trigger] s.drop_last()[i]) by {
                assert(s.drop_last()[i] == s[i]);
            }
        }
        lemma_squash_markup_free(s.drop_last());
        assert(!is_markup(s[s.len() - 1]));
    }
}

/// Nothing the voice reads is markup: no emphasis, code or link marks are
/// ever said aloud.
pub proof fn lemma_speech_text_reads_no_markup(md: Seq<char>)
    ensures
        markup_free(speech_text_spec(md)),
{
    let st = speech_scan(md);
    lemma_scan_markup_free(md);
    if st.2.len() > 0 {
        lemma_step_markup_free(st.0, st.1, st.2);
    }
    let text = if st.2.len() > 0 {
        speech_step(st.0, st.1, st.2).0
    } else {
        st.0
    };
    lemma_squash_markup_free(text);
}

proof fn lemma_cut_from_none(b: Seq<char>, first: bool, k: int)
    requires
        0 <= k,
        cut_from(b, first, k) is None,
    ensures
        forall|j: int| k <= j < b.len() ==> !closes_at(b, j, first),
    decreases b.len() - k,
{
    if k < b.len() {
        lemma_cut_from_none(b, first, k + 1);
    }
}

/// The sentence split off is the shortest one: no earlier place closes a
/// sentence, and while nothing is split off no place in the text does.
pub proof fn lemma_sentence_is_the_first(b: Seq<char>, first: bool)
    ensures
        match sentence_cut(b, first) {
            Some(k) => forall|j: int| 0 <= j < k ==> !closes_at(b, j, first),
            None => forall|j: int| 0 <= j < b.len() ==> !closes_at(b, j, first),
        },
{
    if sentence_cut(b, first) is Some {
        lemma_cut_from_found(b, first, 0);
    } else {
        lemma_cut_from_none(b, first, 0);
    }
}

} // verus!
