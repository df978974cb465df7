//! What a transcript has to look like before it counts as somebody talking
//! to the assistant: whisper's stock captions for silence, and the name it
//! answers to.
use vstd::prelude::*;
use crate::text::{
    alnum, ascii_alnum, ascii_lower, ascii_lower_seq, ascii_upper, is_ascii_text, chars_of, is_alphanumeric, is_whitespace, is_ws, lowercase, squash, squash_chars, str_eq, string_of,
    to_lowercase, trim_start, lemma_trim_start_skip, skip_ws, slice_chars, split_word,
    split_word_chars,
};

verus! {

/// The characters of `s` that are alphanumeric or whitespace, in order.
pub open spec fn keep_alnum_ws(s: Seq<char>) -> Seq<char>
    decreases s.len(),
{
    if s.len() == 0 {
        s
    } else if alnum(s.last()) || is_ws(s.last()) {
        keep_alnum_ws(s.drop_last()).push(s.last())
    } else {
        keep_alnum_ws(s.drop_last())
    }
}

/// The alphanumeric characters of `s`, in order.
pub open spec fn keep_alnum(s: Seq<char>) -> Seq<char>
    decreases s.len(),
{
    if s.len() == 0 {
        s
    } else if alnum(s.last()) {
        keep_alnum(s.drop_last()).push(s.last())
    } else {
        keep_alnum(s.drop_last())
    }
}

/// Whisper's stock captions for "nothing was said".
pub open spec fn is_ghost_caption(t: Seq<char>) -> bool {
    t == "you"@ || t == "thank you"@ || t == "thanks"@ || t == "thank you very much"@ || t
        == "thanks for watching"@ || t == "thank you for watching"@ || t == "bye"@ || t
        == "silence"@
}

/// A transcript reduced to what the caption test compares: punctuation
/// dropped, lower-cased, whitespace squeezed.
pub open spec fn ghost_key(text: Seq<char>) -> Seq<char> {
    squash(lowercase(keep_alnum_ws(text)))
}

/// Filter `v` down to alphanumeric (and, when `ws`, whitespace) characters.
pub fn filter_alnum(v: &[char], ws: bool) -> (r: Vec<char>)
    ensures
        ws ==> r@ == keep_alnum_ws(v@),
        !ws ==> r@ == keep_alnum(v@),
        forall|j: int| 0 <= j < v@.len() && (v@[j] as u32) < 128 ==> alnum(#[trigger] v@[j]) == ascii_alnum(v@[j]),
{
    let mut out: Vec<char> = Vec::new();
    let mut i: usize = 0;
    while i < v.len()
        invariant
            i <= v@.len(),
            ws ==> out@ == keep_alnum_ws(v@.take(i as int)),
            !ws ==> out@ == keep_alnum(v@.take(i as int)),
            forall|j: int| 0 <= j < i && (v@[j] as u32) < 128 ==> alnum(#[trigger] v@[j]) == ascii_alnum(v@[j]),
        decreases v@.len() - i,
    {
        let c = v[i];
        proof {
            assert(v@.take(i + 1).drop_last() =~= v@.take(i as int));
            assert(v@.take(i + 1).last() == c);
        }
        if is_alphanumeric(c) || (ws && is_whitespace(c)) {
            out.push(c);
        }
        i = i + 1;
    }
    assert(v@.take(v@.len() as int) =~= v@);
    out
}

/// Is the whole transcript one of whisper's stock captions for silence?
pub fn is_ghost(text: &str) -> (r: bool)
    ensures
        r == is_ghost_caption(ghost_key(text@)),
{
    let v = chars_of(text);
    let kept = filter_alnum(&v, true);
    let lower = to_lowercase(string_of(&kept).as_str());
    let lv = chars_of(lower.as_str());
    let key = string_of(&squash_chars(&lv));
    let k = key.as_str();
    str_eq(k, "you") || str_eq(k, "thank you") || str_eq(k, "thanks") || str_eq(
        k,
        "thank you very much",
    ) || str_eq(k, "thanks for watching") || str_eq(k, "thank you for watching") || str_eq(
        k,
        "bye",
    ) || str_eq(k, "silence")
}

// ---------------------------------------------------------------------------
// Being addressed
// ---------------------------------------------------------------------------

/// How whisper spells the assistant's name when someone says it aloud.
pub open spec fn is_name(w: Seq<char>) -> bool {
    w == "eva"@ || w == "ava"@ || w == "evah"@ || w == "ev"@ || w == "eev"@ || w == "eve"@ || w
        == "evie"@ || w == "evee"@ || w == "eevee"@ || w == "heavy"@ || w == "evy"@ || w == "ivy"@
}

/// Words allowed to come before the name.
pub open spec fn is_opener(w: Seq<char>) -> bool {
    w == "hey"@ || w == "ok"@ || w == "okay"@ || w == "yo"@ || w == "hi"@ || w == "hello"@
}

/// A word as the name test reads it: letters and digits, lower-cased.
pub open spec fn plain_word(w: Seq<char>) -> Seq<char> {
    lowercase(keep_alnum(w))
}

/// Punctuation and spaces between the name and what was said after it.
pub open spec fn strip_punct(s: Seq<char>) -> Seq<char>
    decreases s.len(),
{
    if s.len() > 0 && (s[0] == ',' || s[0] == '.' || s[0] == '!' || s[0] == '?' || s[0] == ' ') {
        strip_punct(s.drop_first())
    } else {
        s
    }
}

/// What was said after the name, when the transcript opens by naming the
/// assistant — optionally after one opener such as "hey".
pub open spec fn addressed_spec(text: Seq<char>) -> Option<Seq<char>> {
    let (w0, t0) = split_word(trim_start(text));
    if is_name(plain_word(w0)) {
        Some(strip_punct(t0))
    } else if !is_opener(plain_word(w0)) || t0.len() == 0 {
        None
    } else {
        let (w1, t1) = split_word(t0);
        if is_name(plain_word(w1)) {
            Some(strip_punct(t1))
        } else {
            None
        }
    }
}

proof fn lemma_strip_punct_skip(s: Seq<char>, i: int)
    requires
        0 <= i <= s.len(),
        forall|j: int|
            0 <= j < i ==> (#[trigger] s[j] == ',' || s[j] == '.' || s[j] == '!' || s[j] == '?'
                || s[j] == ' '),
        i == s.len() || !(s[i] == ',' || s[i] == '.' || s[i] == '!' || s[i] == '?' || s[i] == ' '),
    ensures
        strip_punct(s) == s.skip(i),
    decreases i,
{
    if i == 0 {
        assert(s.skip(0) =~= s);
    } else {
        let t = s.drop_first();
        assert forall|j: int|
            0 <= j < i - 1 implies (#[trigger] t[j] == ',' || t[j] == '.' || t[j] == '!' || t[j]
            == '?' || t[j] == ' ') by {
            assert(t[j] == s[j + 1]);
        }
        lemma_strip_punct_skip(t, i - 1);
        assert(t.skip(i - 1) =~= s.skip(i));
    }
}

/// The word as the name test reads it.
fn plain_word_of(w: &[char]) -> (r: String)
    ensures
        r@ == plain_word(w@),
        is_ascii_text(keep_alnum(w@)) ==> r@ == ascii_lower_seq(keep_alnum(w@)),
        forall|j: int| 0 <= j < w@.len() && (w@[j] as u32) < 128 ==> alnum(#[trigger] w@[j]) == ascii_alnum(w@[j]),
{
    let kept = filter_alnum(w, false);
    to_lowercase(string_of(&kept).as_str())
}

fn name_test(p: &str) -> (r: bool)
    ensures
        r == is_name(p@),
{
    str_eq(p, "eva") || str_eq(p, "ava") || str_eq(p, "evah") || str_eq(p, "ev") || str_eq(p, "eev")
        || str_eq(p, "eve") || str_eq(p, "evie") || str_eq(p, "evee") || str_eq(p, "eevee")
        || str_eq(p, "heavy") || str_eq(p, "evy") || str_eq(p, "ivy")
}

fn opener_test(p: &str) -> (r: bool)
    ensures
        r == is_opener(p@),
{
    str_eq(p, "hey") || str_eq(p, "ok") || str_eq(p, "okay") || str_eq(p, "yo") || str_eq(p, "hi")
        || str_eq(p, "hello")
}

fn strip_punct_chars(v: &[char]) -> (r: String)
    ensures
        r@ == strip_punct(v@),
{
    let mut i: usize = 0;
    while i < v.len() && (v[i] == ',' || v[i] == '.' || v[i] == '!' || v[i] == '?' || v[i] == ' ')
        invariant
            i <= v@.len(),
            forall|j: int|
                0 <= j < i ==> (#[trigger] v@[j] == ',' || v@[j] == '.' || v@[j] == '!' || v@[j]
                    == '?' || v@[j] == ' '),
        decreases v@.len() - i,
    {
        i = i + 1;
    }
    proof {
        lemma_strip_punct_skip(v@, i as int);
    }
    assert(v@.subrange(i as int, v@.len() as int) =~= v@.skip(i as int));
    string_of(&slice_chars(v, i, v.len()))
}

/// The spellings of the assistant's name that the transcriber produces when
/// someone says it, in lower case.
pub open spec fn name_spellings() -> Seq<Seq<char>> {
    seq![
        "eva"@,
        "ava"@,
        "evah"@,
        "ev"@,
        "eev"@,
        "eve"@,
        "evie"@,
        "evee"@,
        "eevee"@,
        "heavy"@,
        "evy"@,
        "ivy"@,
    ]
}

/// `w` is `n` with any of its letters written as capitals.
pub open spec fn in_any_case(w: Seq<char>, n: Seq<char>) -> bool {
    w.len() == n.len() && forall|i: int| 0 <= i < w.len() ==> (#[trigger] w[i] == n[i] || w[i] == ascii_upper(n[i]))
}

/// What follows does not start with the punctuation or space that is
/// dropped after the name.
pub open spec fn plain_start(rest: Seq<char>) -> bool {
    rest.len() == 0 || !(rest[0] == ',' || rest[0] == '.' || rest[0] == '!' || rest[0] == '?' || rest[0] == ' ')
}

/// The transcript is one spelling of the name, in any case, a comma and a
/// space, then `rest`.
pub open spec fn called_by_name(text: Seq<char>, k: int, w: Seq<char>, rest: Seq<char>) -> bool {
    &&& 0 <= k < name_spellings().len()
    &&& in_any_case(w, name_spellings()[k])
    &&& text == w + ", "@ + rest
    &&& plain_start(rest)
}

proof fn lemma_spellings_are_lower_letters(k: int, i: int)
    requires
        0 <= k < name_spellings().len(),
        0 <= i < name_spellings()[k].len(),
    ensures
        'a' <= name_spellings()[k][i] <= 'z',
        is_name(name_spellings()[k]),
{
    reveal_strlit("eva");
    reveal_strlit("ava");
    reveal_strlit("evah");
    reveal_strlit("ev");
    reveal_strlit("eev");
    reveal_strlit("eve");
    reveal_strlit("evie");
    reveal_strlit("evee");
    reveal_strlit("eevee");
    reveal_strlit("heavy");
    reveal_strlit("evy");
    reveal_strlit("ivy");
}

proof fn lemma_keep_alnum_all(s: Seq<char>)
    requires
        forall|j: int| 0 <= j < s.len() ==> alnum(#[trigger] s[j]),
    ensures
        keep_alnum(s) == s,
    decreases s.len(),
{
    if s.len() > 0 {
        lemma_keep_alnum_all(s.drop_last());
        assert(s.drop_last().push(s.last()) =~= s);
    }
}

/// The facts about one transcript that start with a spelling of the name:
/// where its first word ends, what that word is once its letters are kept,
/// and what follows it.
proof fn lemma_called_by_name_shape(text: Seq<char>, k: int, w: Seq<char>, rest: Seq<char>)
    requires
        called_by_name(text, k, w, rest),
    ensures
        trim_start(text) == text,
        crate::text::split_word(text) == (w + ","@, rest),
        strip_punct(rest) == rest,
        is_ascii_text(w + ","@),
        forall|j: int| 0 <= j < w.len() ==> ascii_alnum(#[trigger] w[j]),
        !ascii_alnum(','),
        ascii_lower_seq(w) == name_spellings()[k],
        is_ascii_text(w),
        w.len() > 0,
{
    reveal_strlit(", ");
    reveal_strlit(",");
    let n = name_spellings()[k];
    reveal_strlit("eva");
    reveal_strlit("ava");
    reveal_strlit("evah");
    reveal_strlit("ev");
    reveal_strlit("eev");
    reveal_strlit("eve");
    reveal_strlit("evie");
    reveal_strlit("evee");
    reveal_strlit("eevee");
    reveal_strlit("heavy");
    reveal_strlit("evy");
    reveal_strlit("ivy");
    assert(n.len() >= 2);
    assert forall|j: int| 0 <= j < w.len() implies 'a' <= n[j] <= 'z' && (#[trigger] w[j] == n[j] || w[j]
        == ascii_upper(n[j])) by {
        lemma_spellings_are_lower_letters(k, j);
    }
    assert forall|j: int| 0 <= j < w.len() implies ascii_alnum(#[trigger] w[j]) && (w[j] as u32) < 128
        && !is_ws(w[j]) && ascii_lower(w[j]) == n[j] by {
        lemma_spellings_are_lower_letters(k, j);
        assert(w[j] == n[j] || w[j] == ascii_upper(n[j]));
    }
    assert(ascii_lower_seq(w) =~= n);
    let wc = w + ","@;
    assert forall|j: int| 0 <= j < wc.len() implies (#[trigger] wc[j] as u32) < 128 by {
        if j < w.len() {
            assert(wc[j] == w[j]);
        }
    }
    assert forall|j: int| 0 <= j < w.len() implies (#[trigger] w[j] as u32) < 128 by {
        assert(ascii_alnum(w[j]) && (w[j] as u32) < 128);
    }
    assert(text[0] == w[0]);
    assert(!is_ws(text[0]));
    lemma_trim_start_skip(text, 0);
    assert(text.skip(0) =~= text);
    let m: int = (w.len() + 1) as int;
    assert(text[w.len() as int] == ',');
    assert(text[m] == ' ');
    assert forall|j: int| 0 <= j < m implies !is_ws(#[trigger] text[j]) by {
        if j < w.len() {
            assert(text[j] == w[j]);
        }
    }
    crate::text::lemma_first_ws(text, m);
    assert(text.take(m) =~= wc);
    assert(text.skip(m + 1) =~= rest);
    lemma_strip_punct_skip(rest, 0);
    assert(rest.skip(0) =~= rest);
}

/// Does this transcript open by addressing the assistant? What was said
/// after the name, if so. The name has to come first — after at most one
/// opener like "hey" — not turn up mid-sentence.
pub fn addressed(text: &str) -> (r: Option<String>)
    ensures
        match addressed_spec(text@) {
            None => r is None,
            Some(t) => r is Some && r->0@ == t,
        },
        forall|k: int, w: Seq<char>, rest: Seq<char>|
            #[trigger] called_by_name(text@, k, w, rest) ==> r is Some && r->0@ == rest,
{
    let v = chars_of(text);
    let start = skip_ws(&v, 0);
    proof {
        lemma_trim_start_skip(v@, start as int);
    }
    let rest = slice_chars(&v, start, v.len());
    assert(v@.subrange(start as int, v@.len() as int) =~= v@.skip(start as int));
    let (w0, t0) = split_word_chars(&rest);
    let p0 = plain_word_of(&w0);
    proof {
        assert forall|k: int, w: Seq<char>, rest2: Seq<char>| #[trigger] called_by_name(text@, k, w, rest2) implies addressed_spec(text@) == Some(rest2) by {
            lemma_called_by_name_shape(text@, k, w, rest2);
            reveal_strlit(",");
            let wc = w + ","@;
            assert(w0@ == wc);
            assert forall|j: int| 0 <= j < w.len() implies alnum(#[trigger] w[j]) by {
                assert(wc[j] == w[j]);
                assert((wc[j] as u32) < 128);
            }
            assert(wc[w.len() as int] == ',');
            assert(!alnum(wc[w.len() as int]));
            lemma_keep_alnum_all(w);
            assert(wc.drop_last() =~= w);
            assert(keep_alnum(wc) == w);
            assert(p0@ == name_spellings()[k]);
            lemma_spellings_are_lower_letters(k, 0);
        }
    }
    if name_test(p0.as_str()) {
        return Some(strip_punct_chars(&t0));
    }
    if !opener_test(p0.as_str()) || t0.len() == 0 {
        return None;
    }
    let (w1, t1) = split_word_chars(&t0);
    let p1 = plain_word_of(&w1);
    if name_test(p1.as_str()) {
        Some(strip_punct_chars(&t1))
    } else {
        None
    }
}

} // verus!
