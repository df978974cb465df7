//! Text as sequences of characters: the whitespace rules every screen leans
//! on (trimming, word splitting), and the conversions between `String` and the
//! character vectors the verified code works on.
use vstd::prelude::*;

verus! {

// ---------------------------------------------------------------------------
// Conversions
// ---------------------------------------------------------------------------

/// The characters of a string, in order (`str::chars` collected).
#[verifier::external_body]
pub(crate) fn chars_of(s: &str) -> (r: Vec<char>)
    ensures
        r@ == s@,
{
    s.chars().collect()
}

/// A string made of exactly these characters (`FromIterator<char>`).
#[verifier::external_body]
pub(crate) fn string_of(v: &[char]) -> (r: String)
    ensures
        r@ == v@,
{
    v.iter().collect()
}

/// The texts of a list of strings.
pub open spec fn texts(s: Seq<String>) -> Seq<Seq<char>> {
    s.map_values(|x: String| x@)
}

pub proof fn lemma_texts_push(s: Seq<String>, x: String)
    ensures
        texts(s.push(x)) == texts(s).push(x@),
{
    assert(texts(s.push(x)) =~= texts(s).push(x@));
}

pub proof fn lemma_texts_take_next(s: Seq<String>, j: int)
    requires
        0 <= j < s.len(),
    ensures
        texts(s.take(j + 1)) == texts(s.take(j)).push(s[j]@),
{
    assert(s.take(j + 1) =~= s.take(j).push(s[j]));
    lemma_texts_push(s.take(j), s[j]);
}

/// What `String::from_utf8_lossy` makes of some bytes: UTF-8 decoded, each
/// maximal invalid run replaced by U+FFFD. Only named here.
pub uninterp spec fn lossy(bytes: Seq<u8>) -> Seq<char>;

/// `String::from_utf8_lossy(bytes).into_owned()`.
#[verifier::external_body]
pub(crate) fn utf8_lossy(bytes: &[u8]) -> (r: String)
    ensures
        r@ == lossy(bytes@),
{
    String::from_utf8_lossy(bytes).into_owned()
}

/// At most the first `n` characters of `s` (`chars().take(n)`).
pub open spec fn first_n(s: Seq<char>, n: nat) -> Seq<char> {
    if s.len() <= n {
        s
    } else {
        s.take(n as int)
    }
}

/// The first `n` characters of `v`, or all of them when there are fewer.
pub fn take_chars(v: &[char], n: usize) -> (r: Vec<char>)
    ensures
        r@ == first_n(v@, n as nat),
{
    if v.len() <= n {
        slice_chars(v, 0, v.len())
    } else {
        let r = slice_chars(v, 0, n);
        assert(r@ =~= v@.take(n as int));
        r
    }
}

/// The `Debug` form of a string: in double quotes, with Rust's escapes. Which
/// characters count as printable is a Unicode table, so this is only named.
pub uninterp spec fn debug_text(s: Seq<char>) -> Seq<char>;

/// `format!("{:?}", s)` for a string.
#[verifier::external_body]
pub(crate) fn debug_str(s: &str) -> (r: String)
    ensures
        r@ == debug_text(s@),
{
    format!("{:?}", s)
}

/// Whether `t` occurs in `s` as a run of consecutive characters.
pub open spec fn contains_seq(s: Seq<char>, t: Seq<char>) -> bool {
    exists|i: int| 0 <= i && i + t.len() <= s.len() && #[trigger] s.subrange(i, i + t.len()) == t
}

/// Whether `p` is the head of `v`.
pub fn has_prefix(v: &[char], p: &[char]) -> (r: bool)
    ensures
        r == p@.is_prefix_of(v@),
{
    if p.len() > v.len() {
        return false;
    }
    let mut i: usize = 0;
    while i < p.len()
        invariant
            p@.len() <= v@.len(),
            i <= p@.len(),
            forall|j: int| 0 <= j < i ==> p@[j] == v@[j],
        decreases p@.len() - i,
    {
        if p[i] != v[i] {
            return false;
        }
        i = i + 1;
    }
    assert(p@ =~= v@.subrange(0, p@.len() as int));
    true
}

/// `str::starts_with` with a string pattern.
pub fn starts_with_str(s: &str, p: &str) -> (r: bool)
    ensures
        r == p@.is_prefix_of(s@),
{
    let a = chars_of(s);
    let b = chars_of(p);
    has_prefix(&a, &b)
}

/// Whether `t` occurs in `v`.
pub fn contains_chars(v: &[char], t: &[char]) -> (r: bool)
    ensures
        r == contains_seq(v@, t@),
{
    if t.len() == 0 {
        assert(v@.subrange(0, 0 + t@.len() as int) =~= t@);
        return true;
    }
    let mut i: usize = 0;
    while i < v.len()
        invariant
            0 < t@.len(),
            i <= v@.len(),
            forall|k: int|
                0 <= k < i && k + t@.len() <= v@.len() ==> #[trigger] v@.subrange(k, k + t@.len())
                    != t@,
        decreases v@.len() - i,
    {
        if v.len() - i < t.len() {
            assert forall|k: int| 0 <= k && k + t@.len() <= v@.len() implies #[trigger] v@.subrange(
                k,
                k + t@.len(),
            ) != t@ by {}
            return false;
        }
        let mut j: usize = 0;
        let mut same = true;
        while j < t.len()
            invariant
                i + t@.len() <= v@.len(),
                v@.len() == v.len(),
                j <= t@.len(),
                same == (forall|m: int| 0 <= m < j ==> t@[m] == v@[i + m]),
            decreases t@.len() - j,
        {
            if t[j] != v[i + j] {
                same = false;
            }
            j = j + 1;
        }
        if same {
            assert(v@.subrange(i as int, i + t@.len()) =~= t@);
            return true;
        }
        assert(v@.subrange(i as int, i + t@.len()) != t@) by {
            let w = choose|m: int| 0 <= m < t@.len() && t@[m] != v@[i + m];
            assert(v@.subrange(i as int, i + t@.len())[w] == v@[i + w]);
        }
        i = i + 1;
    }
    assert forall|k: int| 0 <= k && k + t@.len() <= v@.len() implies #[trigger] v@.subrange(
        k,
        k + t@.len(),
    ) != t@ by {}
    false
}

/// Append every character of `s` to `out`.
pub fn push_str(out: &mut Vec<char>, s: &str)
    ensures
        final(out)@ == old(out)@ + s@,
{
    let v = chars_of(s);
    push_all(out, &v);
}

/// Append every character of `v` to `out`.
pub fn push_all(out: &mut Vec<char>, v: &[char])
    ensures
        final(out)@ == old(out)@ + v@,
{
    let ghost start = out@;
    let mut i: usize = 0;
    while i < v.len()
        invariant
            i <= v@.len(),
            out@ == start + v@.take(i as int),
        decreases v@.len() - i,
    {
        out.push(v[i]);
        i = i + 1;
        assert(v@.take(i as int) == v@.take((i - 1) as int).push(v@[i - 1]));
    }
    assert(v@.take(v@.len() as int) == v@);
}

/// The characters `v[lo..hi]` as a vector of their own.
pub fn slice_chars(v: &[char], lo: usize, hi: usize) -> (r: Vec<char>)
    requires
        lo <= hi <= v@.len(),
    ensures
        r@ == v@.subrange(lo as int, hi as int),
{
    let mut out: Vec<char> = Vec::new();
    let mut i: usize = lo;
    while i < hi
        invariant
            lo <= i <= hi <= v@.len(),
            out@ == v@.subrange(lo as int, i as int),
        decreases hi - i,
    {
        out.push(v[i]);
        i = i + 1;
        assert(v@.subrange(lo as int, i as int) == v@.subrange(lo as int, (i - 1) as int).push(
            v@[i - 1],
        ));
    }
    out
}

/// Whether two character sequences are equal.
pub fn chars_eq(a: &[char], b: &[char]) -> (r: bool)
    ensures
        r == (a@ == b@),
{
    if a.len() != b.len() {
        return false;
    }
    let mut i: usize = 0;
    while i < a.len()
        invariant
            a@.len() == b@.len(),
            i <= a@.len(),
            forall|j: int| 0 <= j < i ==> a@[j] == b@[j],
        decreases a@.len() - i,
    {
        if a[i] != b[i] {
            return false;
        }
        i = i + 1;
    }
    assert(a@ =~= b@);
    true
}

/// Whether `s` equals the literal-free string `t`.
pub fn str_eq(s: &str, t: &str) -> (r: bool)
    ensures
        r == (s@ == t@),
{
    let a = chars_of(s);
    let b = chars_of(t);
    chars_eq(&a, &b)
}

// ---------------------------------------------------------------------------
// Character classes
// ---------------------------------------------------------------------------

/// Unicode `White_Space`, the set `char::is_whitespace` answers for.
pub open spec fn is_ws(c: char) -> bool {
    let u = c as u32;
    (0x09 <= u && u <= 0x0D) || u == 0x20 || u == 0x85 || u == 0xA0 || u == 0x1680 || (0x2000 <= u
        && u <= 0x200A) || u == 0x2028 || u == 0x2029 || u == 0x202F || u == 0x205F || u == 0x3000
}

/// `char::is_whitespace`.
pub fn is_whitespace(c: char) -> (r: bool)
    ensures
        r == is_ws(c),
{
    let u = c as u32;
    (0x09 <= u && u <= 0x0D) || u == 0x20 || u == 0x85 || u == 0xA0 || u == 0x1680 || (0x2000 <= u
        && u <= 0x200A) || u == 0x2028 || u == 0x2029 || u == 0x202F || u == 0x205F || u == 0x3000
}

/// The five characters `u8::is_ascii_whitespace` accepts.
pub open spec fn is_ascii_ws(c: char) -> bool {
    c == ' ' || c == '\t' || c == '\n' || c == '\x0C' || c == '\r'
}

/// Alphanumeric in Unicode's sense (`Alphabetic` or `Numeric`). Pages of
/// tables, so only named here.
pub uninterp spec fn alnum(c: char) -> bool;

/// An ASCII letter or digit.
pub open spec fn ascii_alnum(c: char) -> bool {
    ('a' <= c && c <= 'z') || ('A' <= c && c <= 'Z') || ('0' <= c && c <= '9')
}

/// `char::is_alphanumeric`. Among ASCII characters (below 128), exactly the
/// letters and digits are alphabetic or numeric, as its documentation's
/// `Alphabetic`/`Numeric` properties give; beyond ASCII it is only named.
#[verifier::external_body]
pub(crate) fn is_alphanumeric(c: char) -> (r: bool)
    ensures
        r == alnum(c),
        (c as u32) < 128 ==> r == ascii_alnum(c),
{
    c.is_alphanumeric()
}

/// What `str::to_lowercase` makes of a string. Unicode case mapping (with its
/// context-sensitive final sigma) is a table, not a formula, so it is named.
pub uninterp spec fn lowercase(s: Seq<char>) -> Seq<char>;

/// One character, ASCII capitals lower-cased and everything else untouched.
pub open spec fn ascii_lower(c: char) -> char {
    if 'A' <= c && c <= 'Z' {
        ((c as u32) + 32) as char
    } else {
        c
    }
}

/// `str::to_ascii_lowercase`, character by character.
pub open spec fn ascii_lower_seq(s: Seq<char>) -> Seq<char> {
    Seq::new(s.len(), |i: int| ascii_lower(s[i]))
}

/// Every character below 128.
pub open spec fn is_ascii_text(s: Seq<char>) -> bool {
    forall|i: int| 0 <= i < s.len() ==> (#[trigger] s[i] as u32) < 128
}

/// `str::to_lowercase`. On ASCII text it lower-cases the capitals `A`-`Z`
/// and keeps every other character, one for one (the Unicode lower-case
/// mapping of each ASCII character); beyond ASCII it is only named.
#[verifier::external_body]
pub(crate) fn to_lowercase(s: &str) -> (r: String)
    ensures
        r@ == lowercase(s@),
        is_ascii_text(s@) ==> r@ == ascii_lower_seq(s@),
{
    s.to_lowercase()
}

/// What `str::to_uppercase` makes of a string.
pub uninterp spec fn uppercase(s: Seq<char>) -> Seq<char>;

/// `str::to_uppercase`.
#[verifier::external_body]
pub(crate) fn to_uppercase(s: &str) -> (r: String)
    ensures
        r@ == uppercase(s@),
{
    s.to_uppercase()
}

/// One character, ASCII letters upper-cased and everything else untouched.
pub open spec fn ascii_upper(c: char) -> char {
    if 'a' <= c && c <= 'z' {
        ((c as u32) - 32) as char
    } else {
        c
    }
}

/// `str::to_ascii_uppercase`, character by character.
pub open spec fn ascii_upper_seq(s: Seq<char>) -> Seq<char> {
    Seq::new(s.len(), |i: int| ascii_upper(s[i]))
}

/// `str::to_ascii_uppercase`.
pub fn to_ascii_uppercase(s: &str) -> (r: String)
    ensures
        r@ == ascii_upper_seq(s@),
{
    let v = chars_of(s);
    let mut out: Vec<char> = Vec::new();
    let mut i: usize = 0;
    while i < v.len()
        invariant
            i <= v@.len(),
            out@ == ascii_upper_seq(v@.take(i as int)),
        decreases v@.len() - i,
    {
        let c = v[i];
        let u = if 'a' <= c && c <= 'z' {
            let n: u8 = ((c as u32) - 32) as u8;
            n as char
        } else {
            c
        };
        out.push(u);
        i = i + 1;
        assert(out@ =~= ascii_upper_seq(v@.take(i as int)));
    }
    assert(v@.take(v@.len() as int) =~= v@);
    string_of(&out)
}

// ---------------------------------------------------------------------------
// Trimming
// ---------------------------------------------------------------------------

/// The string with its leading whitespace removed (`str::trim_start`).
pub open spec fn trim_start(s: Seq<char>) -> Seq<char>
    decreases s.len(),
{
    if s.len() > 0 && is_ws(s[0]) {
        trim_start(s.drop_first())
    } else {
        s
    }
}

/// The string with its trailing whitespace removed (`str::trim_end`).
pub open spec fn trim_end(s: Seq<char>) -> Seq<char>
    decreases s.len(),
{
    if s.len() > 0 && is_ws(s.last()) {
        trim_end(s.drop_last())
    } else {
        s
    }
}

/// Both ends trimmed (`str::trim`).
pub open spec fn trim(s: Seq<char>) -> Seq<char> {
    trim_end(trim_start(s))
}

/// Whether a string is blank: nothing but whitespace.
pub open spec fn blank(s: Seq<char>) -> bool {
    forall|i: int| 0 <= i < s.len() ==> is_ws(#[trigger] s[i])
}

pub proof fn lemma_trim_start_skip(s: Seq<char>, i: int)
    requires
        0 <= i <= s.len(),
        forall|j: int| 0 <= j < i ==> is_ws(#[trigger] s[j]),
        i == s.len() || !is_ws(s[i]),
    ensures
        trim_start(s) == s.skip(i),
    decreases i,
{
    if i == 0 {
        assert(s.skip(0) =~= s);
    } else {
        let t = s.drop_first();
        assert forall|j: int| 0 <= j < i - 1 implies is_ws(#[trigger] t[j]) by {
            assert(t[j] == s[j + 1]);
        }
        lemma_trim_start_skip(t, i - 1);
        assert(t.skip(i - 1) =~= s.skip(i));
    }
}

pub proof fn lemma_trim_end_take(s: Seq<char>, k: int)
    requires
        0 <= k <= s.len(),
        forall|j: int| k <= j < s.len() ==> is_ws(#[trigger] s[j]),
        k == 0 || !is_ws(s[k - 1]),
    ensures
        trim_end(s) == s.take(k),
    decreases s.len() - k,
{
    if k == s.len() {
        assert(s.take(k) =~= s);
    } else {
        let t = s.drop_last();
        assert(is_ws(s[s.len() - 1]));
        assert forall|j: int| k <= j < t.len() implies is_ws(#[trigger] t[j]) by {
            assert(t[j] == s[j]);
        }
        lemma_trim_end_take(t, k);
        assert(t.take(k) =~= s.take(k));
    }
}

/// Trimmed of nothing but whitespace is empty, and the other way round.
pub proof fn lemma_trim_empty_iff_blank(s: Seq<char>)
    ensures
        (trim(s).len() == 0) == blank(s),
{
    lemma_first_non_ws(s);
    let i = first_non_ws(s);
    lemma_trim_start_skip(s, i);
    let t = s.skip(i);
    if i == s.len() {
        assert(t.len() == 0);
        assert(trim_end(t) == t);
    } else {
        assert(t[0] == s[i]);
        lemma_trim_end_keeps_head(t);
        assert(!blank(s));
    }
}

pub proof fn lemma_trim_end_keeps_head(t: Seq<char>)
    requires
        t.len() > 0,
        !is_ws(t[0]),
    ensures
        trim_end(t).len() > 0,
    decreases t.len(),
{
    if is_ws(t.last()) {
        if t.len() > 1 {
            assert(t.drop_last()[0] == t[0]);
            lemma_trim_end_keeps_head(t.drop_last());
        }
    }
}

pub proof fn lemma_first_ws_range(s: Seq<char>)
    ensures
        0 <= first_ws(s) <= s.len(),
        forall|j: int| 0 <= j < first_ws(s) ==> !is_ws(#[trigger] s[j]),
        first_ws(s) == s.len() || is_ws(s[first_ws(s)]),
    decreases s.len(),
{
    if s.len() > 0 && !is_ws(s[0]) {
        let t = s.drop_first();
        lemma_first_ws_range(t);
        assert forall|j: int| 0 <= j < first_ws(s) implies !is_ws(#[trigger] s[j]) by {
            if j > 0 {
                assert(s[j] == t[j - 1]);
            }
        }
        if first_ws(s) < s.len() {
            assert(s[first_ws(s)] == t[first_ws(t)]);
        }
    }
}

pub proof fn lemma_last_non_ws_end(s: Seq<char>)
    ensures
        0 <= last_non_ws_end(s) <= s.len(),
        forall|j: int| last_non_ws_end(s) <= j < s.len() ==> is_ws(#[trigger] s[j]),
        last_non_ws_end(s) == 0 || !is_ws(s[last_non_ws_end(s) - 1]),
    decreases s.len(),
{
    if s.len() > 0 && is_ws(s.last()) {
        let t = s.drop_last();
        lemma_last_non_ws_end(t);
        assert forall|j: int| last_non_ws_end(s) <= j < s.len() implies is_ws(#[trigger] s[j]) by {
            if j < s.len() - 1 {
                assert(s[j] == t[j]);
            }
        }
        if last_non_ws_end(s) > 0 {
            assert(s[last_non_ws_end(s) - 1] == t[last_non_ws_end(t) - 1]);
        }
    }
}

/// The trimmed text sits in the text with only whitespace round it: `trim(s)`
/// is `s[a..b]`, nothing but whitespace before `a` and from `b` on.
pub proof fn lemma_trim_bounds(s: Seq<char>) -> (ab: (int, int))
    ensures
        0 <= ab.0 <= ab.1 <= s.len(),
        trim_start(s) == s.skip(ab.0),
        trim(s) == s.subrange(ab.0, ab.1),
        forall|j: int| 0 <= j < ab.0 ==> is_ws(#[trigger] s[j]),
        forall|j: int| ab.1 <= j < s.len() ==> is_ws(#[trigger] s[j]),
        ab.0 < ab.1 ==> !is_ws(s[ab.0]) && !is_ws(s[ab.1 - 1]),
{
    lemma_first_non_ws(s);
    let a = first_non_ws(s);
    lemma_trim_start_skip(s, a);
    let u = s.skip(a);
    lemma_last_non_ws_end(u);
    let e = last_non_ws_end(u);
    lemma_trim_end_take(u, e);
    assert(u.take(e) =~= s.subrange(a, a + e));
    assert forall|j: int| a + e <= j < s.len() implies is_ws(#[trigger] s[j]) by {
        assert(s[j] == u[j - a]);
    }
    if e > 0 {
        assert(u[e - 1] == s[a + e - 1]);
        if a == s.len() {
            assert(false);
        }
        assert(u[0] == s[a]);
        if is_ws(s[a]) {
            assert(false);
        }
    }
    (a, a + e)
}

/// Index of the first non-whitespace character (or the length).
pub open spec fn first_non_ws(s: Seq<char>) -> int
    decreases s.len(),
{
    if s.len() == 0 {
        0
    } else if is_ws(s[0]) {
        1 + first_non_ws(s.drop_first())
    } else {
        0
    }
}

/// One past the last non-whitespace character (or zero).
pub open spec fn last_non_ws_end(s: Seq<char>) -> int
    decreases s.len(),
{
    if s.len() == 0 {
        0
    } else if is_ws(s.last()) {
        last_non_ws_end(s.drop_last())
    } else {
        s.len() as int
    }
}

pub proof fn lemma_first_non_ws(s: Seq<char>)
    ensures
        0 <= first_non_ws(s) <= s.len(),
        forall|j: int| 0 <= j < first_non_ws(s) ==> is_ws(#[trigger] s[j]),
        first_non_ws(s) == s.len() || !is_ws(s[first_non_ws(s)]),
    decreases s.len(),
{
    if s.len() > 0 && is_ws(s[0]) {
        let t = s.drop_first();
        lemma_first_non_ws(t);
        assert forall|j: int| 0 <= j < first_non_ws(s) implies is_ws(#[trigger] s[j]) by {
            if j > 0 {
                assert(s[j] == t[j - 1]);
            }
        }
        if first_non_ws(s) < s.len() {
            assert(s[first_non_ws(s)] == t[first_non_ws(t)]);
        }
    }
}


/// UTF-8 width of one character, as `char::len_utf8` reports it.
pub open spec fn utf8_len(c: char) -> nat {
    let u = c as u32;
    if u < 0x80 {
        1
    } else if u < 0x800 {
        2
    } else if u < 0x10000 {
        3
    } else {
        4
    }
}

/// Bytes in the UTF-8 encoding of `s`.
pub open spec fn bytes_len(s: Seq<char>) -> nat
    decreases s.len(),
{
    if s.len() == 0 {
        0
    } else {
        bytes_len(s.drop_last()) + utf8_len(s.last())
    }
}

/// How many leading characters of `s` fit in `budget` bytes of UTF-8.
pub open spec fn chars_within(s: Seq<char>, budget: nat) -> nat
    decreases s.len(),
{
    if s.len() == 0 || utf8_len(s[0]) > budget {
        0
    } else {
        1 + chars_within(s.drop_first(), (budget - utf8_len(s[0])) as nat)
    }
}

// ---------------------------------------------------------------------------
// Lines and fields
// ---------------------------------------------------------------------------

/// Index of the first `c` in `s`, or the length when there is none.
pub open spec fn find_char(s: Seq<char>, c: char) -> int
    decreases s.len(),
{
    if s.len() == 0 || s[0] == c {
        0
    } else {
        1 + find_char(s.drop_first(), c)
    }
}

pub proof fn lemma_find_char_range(s: Seq<char>, c: char)
    ensures
        0 <= find_char(s, c) <= s.len(),
    decreases s.len(),
{
    if s.len() > 0 && s[0] != c {
        lemma_find_char_range(s.drop_first(), c);
    }
}

pub proof fn lemma_find_char(s: Seq<char>, c: char, i: int)
    requires
        0 <= i <= s.len(),
        forall|j: int| 0 <= j < i ==> #[trigger] s[j] != c,
        i == s.len() || s[i] == c,
    ensures
        find_char(s, c) == i,
    decreases i,
{
    if i > 0 {
        let t = s.drop_first();
        assert forall|j: int| 0 <= j < i - 1 implies #[trigger] t[j] != c by {
            assert(t[j] == s[j + 1]);
        }
        if i < s.len() {
            assert(t[i - 1] == s[i]);
        }
        lemma_find_char(t, c, i - 1);
    }
}

/// The pieces of `s` between occurrences of `c` (`str::split(c)`): always at
/// least one, empty pieces kept.
pub open spec fn split_char(s: Seq<char>, c: char) -> Seq<Seq<char>>
    decreases s.len(),
{
    let k = find_char(s, c);
    if k >= s.len() {
        seq![s]
    } else {
        proof {
            lemma_find_char_range(s, c);
        }
        seq![s.take(k)] + split_char(s.skip(k + 1), c)
    }
}

/// The lines of `s` (`str::lines` before its `\r` handling): split at each
/// `\n`, with no line after a final `\n` and none at all in an empty string.
pub open spec fn lines_of(s: Seq<char>) -> Seq<Seq<char>>
    decreases s.len(),
{
    if s.len() == 0 {
        Seq::empty()
    } else {
        let k = find_char(s, '\n');
        if k >= s.len() {
            seq![s]
        } else {
            proof {
                lemma_find_char_range(s, '\n');
            }
            seq![s.take(k)] + lines_of(s.skip(k + 1))
        }
    }
}

/// `s` without the run of `c` at its end (`trim_end_matches(c)`).
pub open spec fn strip_end(s: Seq<char>, c: char) -> Seq<char>
    decreases s.len(),
{
    if s.len() > 0 && s.last() == c {
        strip_end(s.drop_last(), c)
    } else {
        s
    }
}

/// Index of the first `c` in `v[from..]`, or the length.
pub fn find_char_from(v: &[char], from: usize, c: char) -> (r: usize)
    requires
        from <= v@.len(),
    ensures
        from <= r <= v@.len(),
        find_char(v@.skip(from as int), c) == r - from,
{
    let mut i: usize = from;
    while i < v.len() && v[i] != c
        invariant
            from <= i <= v@.len(),
            forall|j: int| from <= j < i ==> #[trigger] v@[j] != c,
        decreases v@.len() - i,
    {
        i = i + 1;
    }
    proof {
        let t = v@.skip(from as int);
        assert forall|j: int| 0 <= j < i - from implies #[trigger] t[j] != c by {
            assert(t[j] == v@[j + from]);
        }
        if i < v@.len() {
            assert(t[i - from] == v@[i as int]);
        }
        lemma_find_char(t, c, i - from);
    }
    i
}

/// The views of a list of character vectors.
pub open spec fn char_views(s: Seq<Vec<char>>) -> Seq<Seq<char>> {
    s.map_values(|x: Vec<char>| x@)
}

/// `str::split(c)` on characters.
pub fn split_chars(v: &[char], c: char) -> (r: Vec<Vec<char>>)
    ensures
        char_views(r@) == split_char(v@, c),
        r@.len() >= 1,
{
    let mut out: Vec<Vec<char>> = Vec::new();
    let mut pos: usize = 0;
    assert(v@.skip(0) =~= v@);
    loop
        invariant
            pos <= v@.len(),
            split_char(v@, c) == char_views(out@) + split_char(v@.skip(pos as int), c),
        decreases v@.len() - pos,
    {
        let end = find_char_from(v, pos, c);
        let piece = slice_chars(v, pos, end);
        let ghost rest = v@.skip(pos as int);
        let ghost prev = out@;
        assert(piece@ =~= rest.take(end - pos));
        out.push(piece);
        assert(char_views(out@) =~= char_views(prev).push(piece@));
        if end == v.len() {
            assert(split_char(rest, c) == seq![rest]);
            assert(rest.take(end - pos) =~= rest);
            assert(char_views(prev) + seq![rest] =~= char_views(out@));
            return out;
        }
        assert(rest.skip(end - pos + 1) =~= v@.skip(end + 1));
        assert(char_views(prev) + (seq![rest.take(end - pos)] + split_char(v@.skip(end + 1), c))
            =~= char_views(out@) + split_char(v@.skip(end + 1), c));
        pos = end + 1;
    }
}

/// `str::lines` on characters, before the `\r` handling.
pub fn lines_chars(v: &[char]) -> (r: Vec<Vec<char>>)
    ensures
        char_views(r@) == lines_of(v@),
{
    let mut out: Vec<Vec<char>> = Vec::new();
    let mut pos: usize = 0;
    assert(v@.skip(0) =~= v@);
    while pos < v.len()
        invariant
            pos <= v@.len(),
            lines_of(v@) == char_views(out@) + lines_of(v@.skip(pos as int)),
        decreases v@.len() - pos,
    {
        let end = find_char_from(v, pos, '\n');
        let piece = slice_chars(v, pos, end);
        let ghost rest = v@.skip(pos as int);
        let ghost prev = out@;
        assert(piece@ =~= rest.take(end - pos));
        out.push(piece);
        assert(char_views(out@) =~= char_views(prev).push(piece@));
        if end == v.len() {
            assert(lines_of(rest) == seq![rest]);
            assert(rest.take(end - pos) =~= rest);
            assert(char_views(prev) + seq![rest] =~= char_views(out@));
            assert(v@.skip(v@.len() as int) =~= Seq::<char>::empty());
            assert(char_views(out@) + lines_of(Seq::<char>::empty()) =~= char_views(out@));
            return out;
        }
        assert(rest.skip(end - pos + 1) =~= v@.skip(end + 1));
        assert(char_views(prev) + (seq![rest.take(end - pos)] + lines_of(v@.skip(end + 1)))
            =~= char_views(out@) + lines_of(v@.skip(end + 1)));
        pos = end + 1;
    }
    assert(v@.skip(pos as int) =~= Seq::<char>::empty());
    assert(char_views(out@) + lines_of(Seq::<char>::empty()) =~= char_views(out@));
    out
}

/// `v` without the run of `c` at its end.
pub fn strip_end_chars(v: &[char], c: char) -> (r: Vec<char>)
    ensures
        r@ == strip_end(v@, c),
{
    let mut k: usize = v.len();
    assert(v@.take(k as int) =~= v@);
    while k > 0 && v[k - 1] == c
        invariant
            k <= v@.len(),
            strip_end(v@, c) == strip_end(v@.take(k as int), c),
        decreases k,
    {
        assert(v@.take(k as int).drop_last() =~= v@.take(k - 1));
        k = k - 1;
    }
    assert(v@.subrange(0, k as int) =~= v@.take(k as int));
    slice_chars(v, 0, k)
}

// ---------------------------------------------------------------------------
// Words
// ---------------------------------------------------------------------------

/// Index of the first whitespace character (or the length).
pub open spec fn first_ws(s: Seq<char>) -> int
    decreases s.len(),
{
    if s.len() == 0 || is_ws(s[0]) {
        0
    } else {
        1 + first_ws(s.drop_first())
    }
}

/// `split_once(char::is_whitespace)`, or the whole string and nothing.
pub open spec fn split_word(s: Seq<char>) -> (Seq<char>, Seq<char>) {
    let k = first_ws(s);
    if k >= s.len() {
        (s, Seq::empty())
    } else {
        (s.take(k), s.skip(k + 1))
    }
}

pub proof fn lemma_first_ws(s: Seq<char>, i: int)
    requires
        0 <= i <= s.len(),
        forall|j: int| 0 <= j < i ==> !is_ws(#[trigger] s[j]),
        i == s.len() || is_ws(s[i]),
    ensures
        first_ws(s) == i,
    decreases i,
{
    if i > 0 {
        let t = s.drop_first();
        assert(!is_ws(s[0]));
        assert forall|j: int| 0 <= j < i - 1 implies !is_ws(#[trigger] t[j]) by {
            assert(t[j] == s[j + 1]);
        }
        if i < s.len() {
            assert(t[i - 1] == s[i]);
        }
        lemma_first_ws(t, i - 1);
    }
}

/// Split `v` at its first whitespace character.
pub fn split_word_chars(v: &[char]) -> (r: (Vec<char>, Vec<char>))
    ensures
        (r.0@, r.1@) == split_word(v@),
{
    let mut k: usize = 0;
    while k < v.len() && !is_whitespace(v[k])
        invariant
            k <= v@.len(),
            forall|j: int| 0 <= j < k ==> !is_ws(#[trigger] v@[j]),
        decreases v@.len() - k,
    {
        k = k + 1;
    }
    proof {
        lemma_first_ws(v@, k as int);
    }
    if k == v.len() {
        (slice_chars(v, 0, k), Vec::new())
    } else {
        assert(v@.subrange(0, k as int) =~= v@.take(k as int));
        assert(v@.subrange(k + 1, v@.len() as int) =~= v@.skip(k + 1));
        (slice_chars(v, 0, k), slice_chars(v, k + 1, v.len()))
    }
}

/// Index of the first non-whitespace character of `v[from..]`.
pub fn skip_ws(v: &[char], from: usize) -> (r: usize)
    requires
        from <= v@.len(),
    ensures
        from <= r <= v@.len(),
        forall|j: int| from <= j < r ==> is_ws(#[trigger] v@[j]),
        r == v@.len() || !is_ws(v@[r as int]),
{
    let mut i: usize = from;
    while i < v.len() && is_whitespace(v[i])
        invariant
            from <= i <= v@.len(),
            forall|j: int| from <= j < i ==> is_ws(#[trigger] v@[j]),
        decreases v@.len() - i,
    {
        i = i + 1;
    }
    i
}

/// `v` with leading whitespace removed.
pub fn trim_start_chars(v: &[char]) -> (r: Vec<char>)
    ensures
        r@ == trim_start(v@),
{
    let i = skip_ws(v, 0);
    proof {
        lemma_trim_start_skip(v@, i as int);
    }
    slice_chars(v, i, v.len())
}

/// `v` with trailing whitespace removed.
pub fn trim_end_chars(v: &[char]) -> (r: Vec<char>)
    ensures
        r@ == trim_end(v@),
{
    let mut k: usize = v.len();
    while k > 0 && is_whitespace(v[k - 1])
        invariant
            k <= v@.len(),
            forall|j: int| k <= j < v@.len() ==> is_ws(#[trigger] v@[j]),
        decreases k,
    {
        k = k - 1;
    }
    proof {
        lemma_trim_end_take(v@, k as int);
    }
    assert(v@.subrange(0, k as int) =~= v@.take(k as int));
    slice_chars(v, 0, k)
}

/// `v` trimmed at both ends.
pub fn trim_chars(v: &[char]) -> (r: Vec<char>)
    ensures
        r@ == trim(v@),
{
    let a = trim_start_chars(v);
    trim_end_chars(&a)
}

/// `str::trim`, as a new string.
pub fn trim_str(s: &str) -> (r: String)
    ensures
        r@ == trim(s@),
{
    let v = chars_of(s);
    let t = trim_chars(&v);
    string_of(&t)
}

/// Whether `s` is blank once trimmed: `s.trim().is_empty()`.
pub fn is_blank(s: &str) -> (r: bool)
    ensures
        r == blank(s@),
        r == (trim(s@).len() == 0),
{
    let v = chars_of(s);
    let i = skip_ws(&v, 0);
    proof {
        lemma_trim_empty_iff_blank(s@);
    }
    i == v.len()
}

// ---------------------------------------------------------------------------
// Words
// ---------------------------------------------------------------------------

/// Whitespace squeezed: the words of `s` joined by single spaces — what
/// `s.split_whitespace().collect::<Vec<_>>().join(" ")` builds. Stated as the
/// scan that builds it: a space is owed before a word whenever whitespace
/// separated it from an earlier one.
pub open spec fn squash_state(s: Seq<char>) -> (Seq<char>, bool)
    decreases s.len(),
{
    if s.len() == 0 {
        (Seq::empty(), false)
    } else {
        let prev = squash_state(s.drop_last());
        let c = s.last();
        if is_ws(c) {
            (prev.0, prev.0.len() > 0)
        } else {
            ((if prev.1 {
                prev.0.push(' ')
            } else {
                prev.0
            }).push(c), false)
        }
    }
}

pub open spec fn squash(s: Seq<char>) -> Seq<char> {
    squash_state(s).0
}

/// A squashed string never starts or ends with whitespace and never holds
/// two spaces in a row; its only whitespace is the single separating space.
pub open spec fn squashed(t: Seq<char>) -> bool {
    &&& (t.len() > 0 ==> !is_ws(t[0]) && !is_ws(t.last()))
    &&& forall|i: int| 0 <= i < t.len() && is_ws(#[trigger] t[i]) ==> t[i] == ' ' && i + 1 < t.len()
        && !is_ws(t[i + 1])
}

pub proof fn lemma_squash_shape(s: Seq<char>)
    ensures
        squashed(squash(s)),
        squash_state(s).1 ==> squash(s).len() > 0,
    decreases s.len(),
{
    if s.len() > 0 {
        lemma_squash_shape(s.drop_last());
        let prev = squash_state(s.drop_last());
        let c = s.last();
        if !is_ws(c) {
            let base = if prev.1 {
                prev.0.push(' ')
            } else {
                prev.0
            };
            let t = base.push(c);
            assert forall|i: int| 0 <= i < t.len() && is_ws(#[trigger] t[i]) implies t[i] == ' ' && i
                + 1 < t.len() && !is_ws(t[i + 1]) by {
                if i < prev.0.len() {
                    assert(t[i] == prev.0[i]);
                    if i + 1 < prev.0.len() {
                        assert(t[i + 1] == prev.0[i + 1]);
                    } else {
                        assert(!is_ws(prev.0.last()));
                    }
                }
            }
            if t.len() > 0 {
                if prev.0.len() > 0 {
                    assert(t[0] == prev.0[0]);
                } else {
                    assert(!prev.1);
                }
            }
        }
    }
}

/// Whitespace squeezed out of `v`, as a scan.
pub fn squash_chars(v: &[char]) -> (r: Vec<char>)
    ensures
        r@ == squash(v@),
{
    let mut out: Vec<char> = Vec::new();
    let mut pending: bool = false;
    let mut i: usize = 0;
    while i < v.len()
        invariant
            i <= v@.len(),
            (out@, pending) == squash_state(v@.take(i as int)),
        decreases v@.len() - i,
    {
        let c = v[i];
        proof {
            assert(v@.take(i + 1).drop_last() =~= v@.take(i as int));
            assert(v@.take(i + 1).last() == c);
        }
        if is_whitespace(c) {
            pending = out.len() > 0;
        } else {
            if pending {
                out.push(' ');
            }
            out.push(c);
            pending = false;
        }
        i = i + 1;
    }
    assert(v@.take(v@.len() as int) =~= v@);
    out
}

// ---------------------------------------------------------------------------
// Numbers as text
// ---------------------------------------------------------------------------

/// The decimal digit for `d < 10`.
pub open spec fn digit(d: nat) -> char {
    if d == 0 { '0' } else if d == 1 { '1' } else if d == 2 { '2' } else if d == 3 { '3' }
    else if d == 4 { '4' } else if d == 5 { '5' } else if d == 6 { '6' } else if d == 7 { '7' }
    else if d == 8 { '8' } else { '9' }
}

/// A natural number in decimal, as `Display` writes it.
pub open spec fn nat_text(n: nat) -> Seq<char>
    decreases n,
{
    if n < 10 {
        seq![digit(n)]
    } else {
        nat_text(n / 10).push(digit(n % 10))
    }
}

/// An integer in decimal, a `-` in front of a negative one.
pub open spec fn int_text(i: int) -> Seq<char> {
    if i < 0 {
        seq!['-'] + nat_text((-i) as nat)
    } else {
        nat_text(i as nat)
    }
}

fn digit_char(d: u64) -> (c: char)
    requires
        d < 10,
    ensures
        c == digit(d as nat),
{
    if d == 0 { '0' } else if d == 1 { '1' } else if d == 2 { '2' } else if d == 3 { '3' }
    else if d == 4 { '4' } else if d == 5 { '5' } else if d == 6 { '6' } else if d == 7 { '7' }
    else if d == 8 { '8' } else { '9' }
}

/// Append `n` in decimal.
pub fn push_u64(out: &mut Vec<char>, n: u64)
    ensures
        final(out)@ == old(out)@ + nat_text(n as nat),
    decreases n,
{
    if n >= 10 {
        push_u64(out, n / 10);
        let ghost mid = out@;
        out.push(digit_char(n % 10));
        assert(out@ =~= old(out)@ + nat_text(n as nat));
    } else {
        out.push(digit_char(n));
        assert(out@ =~= old(out)@ + nat_text(n as nat));
    }
}

/// Append `i` in decimal.
pub fn push_i64(out: &mut Vec<char>, i: i64)
    ensures
        final(out)@ == old(out)@ + int_text(i as int),
{
    if i < 0 {
        out.push('-');
        let m: u64 = if i == i64::MIN {
            9223372036854775808u64
        } else {
            (-i) as u64
        };
        push_u64(out, m);
        assert(out@ =~= old(out)@ + int_text(i as int));
    } else {
        push_u64(out, i as u64);
    }
}

} // verus!
