//! Settings → Account: the optional cloud sign-in. The session file, the
//! magic-link requests and the loopback listener belong to the program around
//! this library; what is here is reading a token out of whatever the user
//! pasted, the rules a session must meet, and the screen's state machine.
use vstd::prelude::*;
use crate::json::{bool_spec, get_spec, get_str, str_spec, Json, JsonV};
use crate::text::{
    chars_of, contains_seq, is_blank, lines_chars, lossy, push_str, split_chars, str_eq,
    string_of, strip_end, strip_end_chars, trim, trim_chars, trim_str, utf8_lossy,
};

verus! {

/// The session file's name, inside the app's data folder.
pub const FILE: &'static str = "cloud.session.json";

/// A signed-in cloud session, as the session file holds it.
#[derive(Debug, Clone)]
pub struct Session {
    pub url: String,
    pub refresh_token: String,
    pub access_token: String,
    pub access_expires_at: i64,
    pub email: String,
    pub entitlement: String,
    pub is_admin: bool,
}

/// Whether a file name is one plain path component: not empty, not `.` or
/// `..`, with no separator and no drive in it, so joining it to a folder
/// neither replaces the folder nor is normalized away.
pub open spec fn plain_component(file: Seq<char>) -> bool {
    &&& file.len() > 0
    &&& file != "."@
    &&& file != ".."@
    &&& !file.contains('/')
    &&& !file.contains('\\')
    &&& !file.contains(':')
}

/// A folder whose text starts with two separators and a `?`: a Windows
/// verbatim prefix, whose folder the join rebuilds from its components.
pub open spec fn verbatim_like(dir: Seq<char>) -> bool {
    dir.len() >= 3 && (dir[0] == '/' || dir[0] == '\\') && (dir[1] == '/' || dir[1] == '\\') && dir[2] == '?'
}

/// How a folder and a plain file name join on every platform: the folder,
/// then the name, with a `/` or a `\` between them when the folder does not
/// already end in a separator (which one is the platform's).
pub open spec fn joined(dir: Seq<char>, file: Seq<char>, r: Seq<char>) -> bool {
    r == dir + file || r == dir + seq!['/'] + file || r == dir + seq!['\\'] + file
}

/// `Path::new(dir).join(file)` as text, for a file name that is one plain
/// component: the folder, then the name, with a separator between them when
/// one is needed. A Windows folder with a verbatim prefix is rebuilt from its
/// components, so of it only that the path ends with the name, after
/// something, is said; with no folder it is the name alone.
#[verifier::external_body]
fn path_join(dir: &str, file: &str) -> (r: String)
    requires
        plain_component(file@),
    ensures
        file@.is_suffix_of(r@),
        dir@.len() == 0 ==> r@ == file@,
        dir@.len() > 0 ==> r@.len() > file@.len(),
        !verbatim_like(dir@) ==> joined(dir@, file@, r@),
{
    std::path::Path::new(dir).join(file).display().to_string()
}

/// The session file of a data folder: `dir.join(FILE)`.
pub fn session_path(dir: &str) -> (r: String)
    ensures
        FILE@.is_suffix_of(r@),
        dir@.len() == 0 ==> r@ == FILE@,
        dir@.len() > 0 ==> r@.len() > FILE@.len(),
        !verbatim_like(dir@) ==> joined(dir@, FILE@, r@),
{
    proof {
        reveal_strlit("cloud.session.json");
        reveal_strlit(".");
        reveal_strlit("..");
        assert(!FILE@.contains(':') && !FILE@.contains('/') && !FILE@.contains('\\')) by {
            if FILE@.contains(':') || FILE@.contains('/') || FILE@.contains('\\') {
                let w = choose|w: int| 0 <= w < FILE@.len() && (FILE@[w] == ':' || FILE@[w] == '/' || FILE@[w] == '\\');
                assert(false);
            }
        }
        assert(FILE@ != "."@ && FILE@ != ".."@) by {
            assert(FILE@.len() != "."@.len() && FILE@.len() != ".."@.len());
        }
    }
    path_join(dir, FILE)
}

/// Whether a session read from the file can be used: it has a refresh token
/// and a URL to use it against.
pub open spec fn usable(s: Session) -> bool {
    trim(s.refresh_token@).len() > 0 && trim(s.url@).len() > 0
}

/// The session the file held, if it is one that can be used.
pub fn check_session(s: Session) -> (r: Option<Session>)
    ensures
        if usable(s) {
            r == Some(s)
        } else {
            r is None
        },
{
    if is_blank(s.refresh_token.as_str()) || is_blank(s.url.as_str()) {
        None
    } else {
        Some(s)
    }
}

// ---------------------------------------------------------------------------
// Magic links
// ---------------------------------------------------------------------------

/// The query pairs of a URL, percent-decoded, in order; nothing when the text
/// is not a URL. URL parsing and form decoding are the `url` crate's, so this
/// is only named.
pub uninterp spec fn url_query_pairs(text: Seq<char>) -> Option<Seq<(Seq<char>, Seq<char>)>>;

/// The fragment of a URL (after `#`), if it has one; nothing at all when the
/// text is not a URL.
pub uninterp spec fn url_fragment(text: Seq<char>) -> Option<Option<Seq<char>>>;

/// `reqwest::Url::parse(text)` and its `query_pairs()`, decoded to strings.
#[verifier::external_body]
fn query_pairs_of(text: &str) -> (r: Option<Vec<(String, String)>>)
    ensures
        match r {
            Some(v) => url_query_pairs(text@) == Some(v@.map_values(|p: (String, String)| (p.0@, p.1@))),
            None => url_query_pairs(text@) is None,
        },
{
    reqwest::Url::parse(text).ok().map(
        |u| u.query_pairs().map(|(k, v)| (k.into_owned(), v.into_owned())).collect(),
    )
}

/// `reqwest::Url::parse(text)` and its `fragment()`.
#[verifier::external_body]
fn fragment_of(text: &str) -> (r: Option<Option<String>>)
    ensures
        match r {
            Some(Some(f)) => url_fragment(text@) == Some(Some(f@)),
            Some(None) => url_fragment(text@) == Some(None::<Seq<char>>),
            None => url_fragment(text@) is None,
        },
{
    reqwest::Url::parse(text).ok().map(|u| u.fragment().map(|f| f.to_owned()))
}

/// The first `token` pair with a value.
pub open spec fn token_in(pairs: Seq<(Seq<char>, Seq<char>)>) -> Option<Seq<char>>
    decreases pairs.len(),
{
    if pairs.len() == 0 {
        None
    } else if pairs[0].0 == "token"@ && pairs[0].1.len() > 0 {
        Some(pairs[0].1)
    } else {
        token_in(pairs.drop_first())
    }
}

/// The token a URL's query carries.
pub open spec fn query_token(url: Seq<char>) -> Option<Seq<char>> {
    match url_query_pairs(url) {
        Some(pairs) => token_in(pairs),
        None => None,
    }
}

/// The query part of a fragment like `/verify?token=…`: what follows its
/// first `?`, or the whole fragment when it has none.
pub open spec fn fragment_query(frag: Seq<char>) -> Seq<char> {
    let pieces = crate::text::split_char(frag, '?');
    if pieces.len() > 1 {
        pieces[1]
    } else {
        frag
    }
}

/// How many dots a text holds.
pub open spec fn dots(s: Seq<char>) -> nat
    decreases s.len(),
{
    if s.len() == 0 {
        0
    } else {
        dots(s.drop_last()) + if s.last() == '.' {
            1nat
        } else {
            0nat
        }
    }
}

/// The token in what the user pasted: a link's `?token=`, or the `?token=`
/// inside its `#/verify?…` fragment; otherwise the pasted text itself, unless
/// it is blank or has exactly two dots (a JWT, which is not a magic token).
pub open spec fn magic_token_spec(raw: Seq<char>) -> Option<Seq<char>> {
    let t = trim(raw);
    if t.len() == 0 {
        None
    } else {
        let from_query = query_token(t);
        let from_fragment = match url_fragment(t) {
            Some(Some(frag)) => query_token("http://127.0.0.1/?"@ + fragment_query(frag)),
            _ => None,
        };
        if url_query_pairs(t) is Some && from_query is Some {
            from_query
        } else if url_query_pairs(t) is Some && from_fragment is Some {
            from_fragment
        } else if dots(t) == 2 {
            None
        } else {
            Some(t)
        }
    }
}

fn token_of(pairs: &Vec<(String, String)>) -> (r: Option<String>)
    ensures
        match token_in(pairs@.map_values(|p: (String, String)| (p.0@, p.1@))) {
            Some(t) => r is Some && r->0@ == t,
            None => r is None,
        },
{
    let ghost pv = pairs@.map_values(|p: (String, String)| (p.0@, p.1@));
    let mut i: usize = 0;
    assert(pv.skip(0) =~= pv);
    while i < pairs.len()
        invariant
            pv == pairs@.map_values(|p: (String, String)| (p.0@, p.1@)),
            i <= pairs@.len(),
            token_in(pv) == token_in(pv.skip(i as int)),
        decreases pairs@.len() - i,
    {
        assert(pv.skip(i as int)[0] == (pairs@[i as int].0@, pairs@[i as int].1@));
        assert(pv.skip(i as int).drop_first() =~= pv.skip(i + 1));
        if str_eq(pairs[i].0.as_str(), "token") && chars_of(pairs[i].1.as_str()).len() > 0 {
            return Some(pairs[i].1.clone());
        }
        i = i + 1;
    }
    assert(pv.skip(i as int) =~= Seq::<(Seq<char>, Seq<char>)>::empty());
    None
}

fn count_dots(v: &Vec<char>) -> (r: usize)
    ensures
        r == dots(v@),
{
    let mut n: usize = 0;
    let mut i: usize = 0;
    while i < v.len()
        invariant
            i <= v@.len(),
            n == dots(v@.take(i as int)),
            n <= i,
        decreases v@.len() - i,
    {
        assert(v@.take(i + 1).drop_last() =~= v@.take(i as int));
        if v[i] == '.' {
            n = n + 1;
        }
        i = i + 1;
    }
    assert(v@.take(i as int) =~= v@);
    n
}

/// The token in a pasted magic link, or the pasted raw token.
pub fn extract_magic_token(raw: &str) -> (r: Option<String>)
    ensures
        match magic_token_spec(raw@) {
            Some(t) => r is Some && r->0@ == t,
            None => r is None,
        },
{
    let trimmed = trim_str(raw);
    if chars_of(trimmed.as_str()).len() == 0 {
        return None;
    }
    match query_pairs_of(trimmed.as_str()) {
        Some(pairs) => {
            match token_of(&pairs) {
                Some(t) => {
                    return Some(t);
                },
                None => {},
            }
            match fragment_of(trimmed.as_str()) {
                Some(Some(frag)) => {
                    let pieces = split_chars(&chars_of(frag.as_str()), '?');
                    let q = if pieces.len() > 1 {
                        proof {
                            assert(crate::text::char_views(pieces@)[1] == pieces@[1]@);
                        }
                        string_of(&pieces[1])
                    } else {
                        frag.clone()
                    };
                    let mut dummy: Vec<char> = Vec::new();
                    push_str(&mut dummy, "http://127.0.0.1/?");
                    push_str(&mut dummy, q.as_str());
                    match query_pairs_of(string_of(&dummy).as_str()) {
                        Some(inner) => match token_of(&inner) {
                            Some(t) => {
                                return Some(t);
                            },
                            None => {},
                        },
                        None => {},
                    }
                },
                _ => {},
            }
        },
        None => {},
    }
    if count_dots(&chars_of(trimmed.as_str())) == 2 {
        return None;
    }
    Some(trimmed)
}

// ---------------------------------------------------------------------------
// Answers from the cloud
// ---------------------------------------------------------------------------

/// The value of an integer's JSON text (`Value::as_i64`): an optional `-`
/// and decimal digits, within `i64`; nothing for a fraction, an exponent, or
/// anything out of range.
pub open spec fn int_value(t: Seq<char>) -> Option<int> {
    if t.len() > 0 && t[0] == '-' {
        match digits_value(t.drop_first()) {
            Some(n) => if n <= 0x8000_0000_0000_0000 {
                Some(-n)
            } else {
                None
            },
            None => None,
        }
    } else {
        match digits_value(t) {
            Some(n) => if n <= 0x7fff_ffff_ffff_ffff {
                Some(n as int)
            } else {
                None
            },
            None => None,
        }
    }
}

/// The value of a run of decimal digits; nothing for an empty run or any
/// other character.
pub open spec fn digits_value(t: Seq<char>) -> Option<nat>
    decreases t.len(),
{
    if t.len() == 0 {
        None
    } else {
        let d = t.last();
        if !('0' <= d && d <= '9') {
            None
        } else if t.len() == 1 {
            Some((d as u32 - '0' as u32) as nat)
        } else {
            match digits_value(t.drop_last()) {
                Some(n) => Some(n * 10 + (d as u32 - '0' as u32) as nat),
                None => None,
            }
        }
    }
}

/// The value of the digits from `from` on, when it is at most 2^63.
fn read_digits(v: &Vec<char>, from: usize) -> (r: Option<u128>)
    requires
        from <= v@.len(),
    ensures
        match digits_value(v@.skip(from as int)) {
            Some(n) => if n <= 0x8000_0000_0000_0000 {
                r == Some(n as u128)
            } else {
                r is None
            },
            None => r is None,
        },
{
    if from == v.len() {
        assert(v@.skip(from as int) =~= Seq::<char>::empty());
        return None;
    }
    let ghost t = v@.skip(from as int);
    let mut n: u128 = 0;
    let mut i: usize = from;
    while i < v.len()
        invariant
            t == v@.skip(from as int),
            from < v@.len(),
            from <= i <= v@.len(),
            i > from ==> digits_value(t.take(i - from)) == Some(n as nat),
            i == from ==> n == 0,
            n <= 0x8000_0000_0000_0000,
        decreases v@.len() - i,
    {
        let d = v[i];
        assert(t[i - from] == d);
        if !('0' <= d && d <= '9') {
            proof {
                lemma_digits_bad(t, i - from);
            }
            return None;
        }
        let dv: u128 = ((d as u32) - ('0' as u32)) as u128;
        let ghost old_n = n;
        n = n * 10 + dv;
        proof {
            let s = t.take(i - from + 1);
            assert(s.last() == d);
            assert(s.drop_last() =~= t.take(i - from));
            assert(dv as nat == (d as u32 - '0' as u32) as nat);
            if i > from {
                assert(digits_value(s.drop_last()) == Some(old_n as nat));
                assert(digits_value(s) == Some((old_n * 10 + dv) as nat));
            } else {
                assert(old_n == 0);
                assert(digits_value(s) == Some(dv as nat));
            }
        }
        if n > 0x8000_0000_0000_0000 {
            proof {
                lemma_digits_mono(t, i - from + 1);
            }
            return None;
        }
        i = i + 1;
    }
    assert(t.take(i - from) =~= t);
    Some(n)
}

/// A character that is not a digit spoils the whole run.
proof fn lemma_digits_bad(t: Seq<char>, k: int)
    requires
        0 <= k < t.len(),
        !('0' <= t[k] && t[k] <= '9'),
    ensures
        digits_value(t) is None,
    decreases t.len(),
{
    if k < t.len() - 1 {
        assert(t.drop_last()[k] == t[k]);
        lemma_digits_bad(t.drop_last(), k);
    }
}

/// More digits never make a run worth less.
proof fn lemma_digits_mono(t: Seq<char>, k: int)
    requires
        1 <= k <= t.len(),
    ensures
        digits_value(t) is Some ==> digits_value(t.take(k)) is Some && digits_value(t)->0
            >= digits_value(t.take(k))->0,
    decreases t.len() - k,
{
    if k < t.len() {
        assert(t.drop_last().len() >= k);
        lemma_digits_mono(t.drop_last(), k);
        assert(t.drop_last().take(k) =~= t.take(k));
    } else {
        assert(t.take(k) =~= t);
    }
}

/// `Value::as_i64` on a number's text.
pub fn number_i64(text: &str) -> (r: Option<i64>)
    ensures
        match int_value(text@) {
            Some(n) => r == Some(n as i64),
            None => r is None,
        },
{
    let v = chars_of(text);
    if v.len() > 0 && v[0] == '-' {
        assert(v@.skip(1) =~= v@.drop_first());
        match read_digits(&v, 1) {
            Some(n) => {
                if n == 0x8000_0000_0000_0000 {
                    Some(i64::MIN)
                } else {
                    let m: i64 = n as i64;
                    Some(-m)
                }
            },
            None => None,
        }
    } else {
        assert(v@.skip(0) =~= v@);
        match read_digits(&v, 0) {
            Some(n) => {
                if n > 0x7fff_ffff_ffff_ffff {
                    None
                } else {
                    Some(n as i64)
                }
            },
            None => None,
        }
    }
}

/// The default lifetime of an access token, in seconds.
pub const ACCESS_SECONDS: i64 = 900;

/// The user a sign-in answer describes: its `user` member, or the answer
/// itself when it has none.
pub open spec fn user_of(body: JsonV) -> JsonV {
    match get_spec(body, "user"@) {
        Some(u) => u,
        None => body,
    }
}

pub open spec fn text_at(j: JsonV, key: Seq<char>) -> Seq<char> {
    match str_spec(get_spec(j, key)) {
        Some(t) => t,
        None => Seq::empty(),
    }
}

/// How long the access token lasts: the answer's `expires_in` when it is an
/// integer, else [`ACCESS_SECONDS`].
pub open spec fn expires_in(body: JsonV) -> int {
    match get_spec(body, "expires_in"@) {
        Some(JsonV::Number(t)) => match int_value(t) {
            Some(n) => n,
            None => ACCESS_SECONDS as int,
        },
        _ => ACCESS_SECONDS as int,
    }
}

/// `sum` wrapped into `i64`, as `i64::wrapping_add` does for a sum in reach.
pub open spec fn wrapped(sum: int) -> i64 {
    if sum > i64::MAX {
        (sum - 0x1_0000_0000_0000_0000) as i64
    } else if sum < i64::MIN {
        (sum + 0x1_0000_0000_0000_0000) as i64
    } else {
        sum as i64
    }
}

/// The session a sign-in answer makes, read at `now` (seconds since the
/// epoch): the cloud URL without trailing slashes, the two tokens, the
/// access token's expiry (`now` plus its lifetime, wrapping as `i64` does),
/// and who signed in.
pub open spec fn session_at_spec(
    cloud: Seq<char>,
    body: JsonV,
    access: Seq<char>,
    refresh: Seq<char>,
    now: i64,
) -> (Seq<char>, Seq<char>, Seq<char>, i64, Seq<char>, Seq<char>, bool) {
    let user = user_of(body);
    (
        strip_end(cloud, '/'),
        refresh,
        access,
        wrapped(now as int + expires_in(body)),
        text_at(user, "email"@),
        text_at(user, "entitlement"@),
        match bool_spec(get_spec(user, "is_admin"@)) {
            Some(b) => b,
            None => false,
        },
    )
}

pub open spec fn session_view(s: Session) -> (
    Seq<char>,
    Seq<char>,
    Seq<char>,
    i64,
    Seq<char>,
    Seq<char>,
    bool,
) {
    (s.url@, s.refresh_token@, s.access_token@, s.access_expires_at, s.email@, s.entitlement@, s.is_admin)
}

fn text_field(j: &Json, key: &str) -> (r: String)
    ensures
        r@ == text_at(j@, key@),
{
    match get_str(j, key) {
        Some(t) => t.to_owned(),
        None => String::new(),
    }
}

/// The session a sign-in answer makes, at the given time.
pub fn session_at(cloud: &str, body: &Json, access: String, refresh: String, now: i64) -> (r:
    Session)
    ensures
        session_view(r) == session_at_spec(cloud@, body@, access@, refresh@, now),
{
    let user = match body.get("user") {
        Some(u) => u,
        None => body,
    };
    let lifetime: i64 = match body.get("expires_in") {
        Some(Json::Number(t)) => match number_i64(t.as_str()) {
            Some(n) => n,
            None => ACCESS_SECONDS,
        },
        _ => ACCESS_SECONDS,
    };
    let is_admin = match user.get("is_admin") {
        Some(b) => match b.as_bool() {
            Some(x) => x,
            None => false,
        },
        None => false,
    };
    let url = string_of(&strip_end_chars(&chars_of(cloud), '/'));
    Session {
        url,
        refresh_token: refresh,
        access_token: access,
        access_expires_at: now.wrapping_add(lifetime),
        email: text_field(user, "email"),
        entitlement: text_field(user, "entitlement"),
        is_admin,
    }
}

/// `SystemTime::now()` measured from the epoch, in whole seconds: `Ok` for a
/// clock at or after it, `Err` with how far before it the clock reads. What
/// the clock says is the machine's, so nothing is promised of it.
#[verifier::external_body]
fn clock_seconds() -> (r: Result<u64, u64>) {
    match std::time::SystemTime::now().duration_since(std::time::UNIX_EPOCH) {
        Ok(d) => Ok(d.as_secs()),
        Err(e) => Err(e.duration().as_secs()),
    }
}

/// The time now, in seconds since the epoch; negative for a clock set before
/// it, and held at the ends of `i64` for one beyond them.
fn now_timestamp() -> (r: i64) {
    match clock_seconds() {
        Ok(s) => if s <= i64::MAX as u64 {
            s as i64
        } else {
            i64::MAX
        },
        Err(s) => if s <= i64::MAX as u64 {
            -(s as i64)
        } else {
            i64::MIN
        },
    }
}

/// The session a sign-in answer makes, its expiry counted from the clock.
/// Every field but the expiry is fixed by the answer; the expiry is the
/// token's lifetime after whatever time the clock read.
pub fn session_from_body(cloud: &str, body: &Json, access: String, refresh: String) -> (r:
    Session)
    ensures
        exists|now: i64| session_view(r) == session_at_spec(cloud@, body@, access@, refresh@, now),
{
    let now = now_timestamp();
    session_at(cloud, body, access, refresh, now)
}

/// What a refused request says, from the cloud's `error.message`, or
/// `fallback` when it says nothing readable.
pub open spec fn refusal_spec(body: JsonV, fallback: Seq<char>) -> Seq<char> {
    match get_spec(body, "error"@) {
        Some(e) => match str_spec(get_spec(e, "message"@)) {
            Some(m) => m,
            None => fallback,
        },
        None => fallback,
    }
}

pub fn refusal(body: &Json, fallback: &str) -> (r: String)
    ensures
        r@ == refusal_spec(body@, fallback@),
{
    match body.get("error") {
        Some(e) => match get_str(e, "message") {
            Some(m) => m.to_owned(),
            None => fallback.to_owned(),
        },
        None => fallback.to_owned(),
    }
}

/// The tokens an answer to the verify request carries, or why it cannot be
/// used.
pub open spec fn verified_tokens_spec(body: JsonV) -> Result<(Seq<char>, Seq<char>), Seq<char>> {
    match str_spec(get_spec(body, "access_token"@)) {
        None => Err("Cloud verify returned no access_token."@),
        Some(a) => match str_spec(get_spec(body, "refresh_token"@)) {
            None => Err("Cloud verify returned no refresh_token."@),
            Some(r) => Ok((a, r)),
        },
    }
}

pub fn verified_tokens(body: &Json) -> (r: Result<(String, String), String>)
    ensures
        match verified_tokens_spec(body@) {
            Ok((a, t)) => match r {
                Ok((x, y)) => x@ == a && y@ == t,
                Err(_) => false,
            },
            Err(e) => match r {
                Ok(_) => false,
                Err(x) => x@ == e,
            },
        },
{
    let access = match get_str(body, "access_token") {
        Some(a) => a.to_owned(),
        None => {
            return Err("Cloud verify returned no access_token.".to_owned());
        },
    };
    match get_str(body, "refresh_token") {
        Some(t) => Ok((access, t.to_owned())),
        None => Err("Cloud verify returned no refresh_token.".to_owned()),
    }
}

// ---------------------------------------------------------------------------
// The loopback callback
// ---------------------------------------------------------------------------

/// The path of an HTTP request: the second word of its first line.
pub open spec fn request_path(head: Seq<char>) -> Seq<char> {
    let lines = crate::text::lines_of(head);
    let first = if lines.len() > 0 {
        strip_end(lines[0], '\r')
    } else {
        Seq::empty()
    };
    let (w1, rest) = crate::text::split_word(crate::text::trim_start(first));
    let (w2, _) = crate::text::split_word(crate::text::trim_start(rest));
    w2
}

/// The last value the query gives `key`, or nothing.
pub open spec fn last_value(pairs: Seq<(Seq<char>, Seq<char>)>, key: Seq<char>) -> Seq<char>
    decreases pairs.len(),
{
    if pairs.len() == 0 {
        Seq::empty()
    } else if pairs.last().0 == key {
        pairs.last().1
    } else {
        last_value(pairs.drop_last(), key)
    }
}

/// The tokens a browser hands back on the loopback callback: the request's
/// `access_token` and `refresh_token` (the last of each), when both are there.
pub open spec fn callback_tokens_spec(head: Seq<char>) -> Option<(Seq<char>, Seq<char>)> {
    let pairs = match url_query_pairs("http://127.0.0.1"@ + request_path(head)) {
        Some(p) => p,
        None => Seq::empty(),
    };
    let access = last_value(pairs, "access_token"@);
    let refresh = last_value(pairs, "refresh_token"@);
    if access.len() > 0 && refresh.len() > 0 {
        Some((access, refresh))
    } else {
        None
    }
}

fn value_of(pairs: &Vec<(String, String)>, key: &str) -> (r: String)
    ensures
        r@ == last_value(pairs@.map_values(|p: (String, String)| (p.0@, p.1@)), key@),
{
    let ghost pv = pairs@.map_values(|p: (String, String)| (p.0@, p.1@));
    let mut out = String::new();
    let mut i: usize = 0;
    proof {
        reveal_strlit("");
    }
    while i < pairs.len()
        invariant
            pv == pairs@.map_values(|p: (String, String)| (p.0@, p.1@)),
            i <= pairs@.len(),
            out@ == last_value(pv.take(i as int), key@),
        decreases pairs@.len() - i,
    {
        assert(pv.take(i + 1).drop_last() =~= pv.take(i as int));
        assert(pv.take(i + 1).last() == (pairs@[i as int].0@, pairs@[i as int].1@));
        if str_eq(pairs[i].0.as_str(), key) {
            out = pairs[i].1.clone();
        }
        i = i + 1;
    }
    assert(pv.take(i as int) =~= pv);
    out
}

/// The tokens in a loopback request, when it carries both.
pub fn callback_tokens(head: &str) -> (r: Option<(String, String)>)
    ensures
        match callback_tokens_spec(head@) {
            Some((a, t)) => match r {
                Some((x, y)) => x@ == a && y@ == t,
                None => false,
            },
            None => r is None,
        },
{
    let v = chars_of(head);
    let lines = lines_chars(&v);
    let first = if lines.len() > 0 {
        proof {
            assert(crate::text::char_views(lines@)[0] == lines@[0]@);
        }
        strip_end_chars(&lines[0], '\r')
    } else {
        Vec::new()
    };
    let t1 = crate::text::trim_start_chars(&first);
    let (_w1, rest) = crate::text::split_word_chars(&t1);
    let t2 = crate::text::trim_start_chars(&rest);
    let (w2, _tail) = crate::text::split_word_chars(&t2);
    let mut url: Vec<char> = Vec::new();
    push_str(&mut url, "http://127.0.0.1");
    crate::text::push_all(&mut url, &w2);
    let pairs = match query_pairs_of(string_of(&url).as_str()) {
        Some(p) => p,
        None => Vec::new(),
    };
    proof {
        assert(pairs@.map_values(|p: (String, String)| (p.0@, p.1@)) =~= match url_query_pairs(
            "http://127.0.0.1"@ + request_path(head@),
        ) {
            Some(p) => p,
            None => Seq::empty(),
        });
    }
    let access = value_of(&pairs, "access_token");
    let refresh = value_of(&pairs, "refresh_token");
    if chars_of(access.as_str()).len() > 0 && chars_of(refresh.as_str()).len() > 0 {
        Some((access, refresh))
    } else {
        None
    }
}

/// The page the browser gets back from the loopback listener: a thank-you
/// when the tokens arrived, a pointer back to the app when they did not.
pub open spec fn callback_page(ok: bool) -> Seq<char> {
    if ok {
        "<!doctype html><title>Signed in</title><p>You can close this tab and return to the app.</p>"@
    } else {
        "<!doctype html><title>Sign-in failed</title><p>Missing tokens. Return to the app and paste the link.</p>"@
    }
}

/// The whole HTTP response the loopback listener sends.
pub open spec fn callback_response_spec(ok: bool) -> Seq<char> {
    let body = callback_page(ok);
    "HTTP/1.1 "@ + (if ok {
        "200 OK"@
    } else {
        "400 Bad Request"@
    }) + "\r\nContent-Type: text/html; charset=utf-8\r\nConnection: close\r\nContent-Length: "@
        + crate::text::nat_text(crate::text::bytes_len(body)) + "\r\n\r\n"@ + body
}

pub fn callback_response(ok: bool) -> (r: String)
    ensures
        r@ == callback_response_spec(ok),
{
    let body = if ok {
        "<!doctype html><title>Signed in</title><p>You can close this tab and return to the app.</p>"
    } else {
        "<!doctype html><title>Sign-in failed</title><p>Missing tokens. Return to the app and paste the link.</p>"
    };
    let bv = chars_of(body);
    proof {
        reveal_strlit(
            "<!doctype html><title>Signed in</title><p>You can close this tab and return to the app.</p>",
        );
        reveal_strlit(
            "<!doctype html><title>Sign-in failed</title><p>Missing tokens. Return to the app and paste the link.</p>",
        );
    }
    let n = utf8_bytes(&bv);
    let mut out: Vec<char> = Vec::new();
    push_str(&mut out, "HTTP/1.1 ");
    push_str(&mut out, if ok {
        "200 OK"
    } else {
        "400 Bad Request"
    });
    push_str(&mut out, "\r\nContent-Type: text/html; charset=utf-8\r\nConnection: close\r\nContent-Length: ");
    crate::text::push_u64(&mut out, n);
    push_str(&mut out, "\r\n\r\n");
    push_str(&mut out, body);
    string_of(&out)
}

/// The UTF-8 length of a short text.
fn utf8_bytes(v: &Vec<char>) -> (r: u64)
    requires
        v@.len() < 0x1000_0000,
    ensures
        r == crate::text::bytes_len(v@),
{
    let mut n: u64 = 0;
    let mut i: usize = 0;
    while i < v.len()
        invariant
            v@.len() < 0x1000_0000,
            i <= v@.len(),
            n == crate::text::bytes_len(v@.take(i as int)),
            n <= 4 * i,
        decreases v@.len() - i,
    {
        assert(v@.take(i + 1).drop_last() =~= v@.take(i as int));
        let u: u32 = v[i] as u32;
        let w: u64 = if u < 0x80 {
            1
        } else if u < 0x800 {
            2
        } else if u < 0x10000 {
            3
        } else {
            4
        };
        n = n + w;
        i = i + 1;
    }
    assert(v@.take(i as int) =~= v@);
    n
}

// ---------------------------------------------------------------------------
// The screen
// ---------------------------------------------------------------------------

/// The account screen: the fields, the session, and what the screen is
/// saying. The data folder the session file lives in is the program's.
#[derive(Debug)]
pub struct State {
    pub url: String,
    pub email: String,
    pub paste: String,
    pub session: Option<Session>,
    pub busy: bool,
    pub waiting: bool,
    pub error: Option<String>,
    pub notice: Option<String>,
}

/// What the account screen is told.
#[derive(Debug)]
pub enum Message {
    UrlChanged(String),
    EmailChanged(String),
    PasteChanged(String),
    SendLink,
    SignedIn(Result<Session, String>),
    /// The session file was written (or could not be).
    Saved(Result<Session, String>),
    PasteVerify,
    SignOut,
    SignedOut(Result<(), String>),
    Dismiss,
}

/// What the program around the screen is to do next.
#[derive(Debug)]
pub enum Effect {
    Nothing,
    /// Ask the cloud to email a magic link to `email`, listen on loopback
    /// for the browser, and answer with `SignedIn`.
    SendLink { url: String, email: String },
    /// Trade a pasted token for a session and answer with `SignedIn`.
    Verify { url: String, token: String },
    /// Write the session file and answer with `Saved`.
    Save(Session),
    /// Tell the cloud to drop the refresh token (when there is one), remove
    /// the session file, and answer with `SignedOut`.
    SignOut { url: String, refresh: String },
}

impl State {
    /// The screen as the session file (already checked) and the configured
    /// cloud URL leave it: the configured URL when there is one, else the
    /// session's.
    pub fn load(session: Option<Session>, cloud_url: &str) -> (r: State)
        ensures
            r.url@ == if trim(cloud_url@).len() > 0 {
                trim(cloud_url@)
            } else {
                match session {
                    Some(s) => s.url@,
                    None => Seq::empty(),
                }
            },
            r.email@ == match session {
                Some(s) => s.email@,
                None => Seq::empty(),
            },
            r.session == session,
            r.paste@.len() == 0,
            !r.busy && !r.waiting,
            r.error is None && r.notice is None,
    {
        let url = if !is_blank(cloud_url) {
            trim_str(cloud_url)
        } else {
            match &session {
                Some(s) => s.url.clone(),
                None => String::new(),
            }
        };
        let email = match &session {
            Some(s) => s.email.clone(),
            None => String::new(),
        };
        State {
            url,
            email,
            paste: String::new(),
            session,
            busy: false,
            waiting: false,
            error: None,
            notice: None,
        }
    }
}

/// The cloud URL as typed: trimmed, without trailing slashes.
pub open spec fn cloud_url(url: Seq<char>) -> Seq<char> {
    strip_end(trim(url), '/')
}

fn cloud_url_of(url: &str) -> (r: String)
    ensures
        r@ == cloud_url(url@),
{
    string_of(&strip_end_chars(&trim_chars(&chars_of(url)), '/'))
}

pub open spec fn has_at(s: Seq<char>) -> bool {
    s.contains('@')
}

fn contains_at(s: &str) -> (r: bool)
    ensures
        r == has_at(s@),
{
    let v = chars_of(s);
    let mut i: usize = 0;
    while i < v.len()
        invariant
            v@ == s@,
            i <= v@.len(),
            forall|k: int| 0 <= k < i ==> v@[k] != '@',
        decreases v@.len() - i,
    {
        if v[i] == '@' {
            assert(s@[i as int] == '@');
            assert(s@.contains('@'));
            return true;
        }
        i = i + 1;
    }
    false
}

/// Whether the message slot holds this text.
pub open spec fn says(o: Option<String>, t: Seq<char>) -> bool {
    match o {
        Some(m) => m@ == t,
        None => false,
    }
}

/// The account screen's state machine.
pub fn update(state: &mut State, msg: Message) -> (r: Effect)
    ensures
        match msg {
            Message::UrlChanged(v) => r is Nothing && *final(state) == (State { url: v, ..*old(state) }),
            Message::EmailChanged(v) => r is Nothing && *final(state) == (State { email: v, ..*old(state) }),
            Message::PasteChanged(v) => r is Nothing && *final(state) == (State { paste: v, ..*old(state) }),
            Message::Dismiss => r is Nothing && *final(state) == (State { error: None, notice: None, ..*old(state) }),
            Message::SendLink => {
                let url = cloud_url(old(state).url@);
                let email = trim(old(state).email@);
                if url.len() == 0 {
                    &&& r is Nothing
                    &&& *final(state) == (State { error: final(state).error, ..*old(state) })
                    &&& says(final(state).error, "Enter the cloud URL first."@)
                } else if !has_at(email) {
                    &&& r is Nothing
                    &&& *final(state) == (State { error: final(state).error, ..*old(state) })
                    &&& says(final(state).error, "Enter the email the magic link should reach."@)
                } else {
                    &&& (match r {
                        Effect::SendLink { url: u, email: e } => u@ == url && e@ == email,
                        _ => false,
                    })
                    &&& *final(state) == (State {
                        busy: true,
                        waiting: true,
                        error: None,
                        notice: final(state).notice,
                        ..*old(state)
                    })
                    &&& says(
                        final(state).notice,
                        "Check your email and open the link. This window will sign in when it lands."@,
                    )
                }
            },
            Message::SignedIn(Ok(s)) => r == Effect::Save(s) && *final(state) == (State {
                busy: false,
                waiting: false,
                paste: final(state).paste,
                ..*old(state)
            }) && final(state).paste@.len() == 0,
            Message::SignedIn(Err(e)) => r is Nothing && *final(state) == (State {
                busy: false,
                waiting: false,
                error: Some(e),
                ..*old(state)
            }),
            Message::Saved(Ok(s)) => {
                &&& r is Nothing
                &&& *final(state) == (State {
                    url: s.url,
                    email: s.email,
                    session: Some(s),
                    notice: final(state).notice,
                    ..*old(state)
                })
                &&& says(final(state).notice, "Signed in. Pick Platform AI as the provider to use hosted models."@)
            },
            Message::Saved(Err(e)) => r is Nothing && *final(state) == (State { error: Some(e), ..*old(state) }),
            Message::PasteVerify => {
                let url = cloud_url(old(state).url@);
                match magic_token_spec(old(state).paste@) {
                    None => {
                        &&& r is Nothing
                        &&& *final(state) == (State { error: final(state).error, ..*old(state) })
                        &&& says(final(state).error, "Paste the magic link, or the token from it."@)
                    },
                    Some(t) => if url.len() == 0 {
                        &&& r is Nothing
                        &&& *final(state) == (State { error: final(state).error, ..*old(state) })
                        &&& says(final(state).error, "Enter the cloud URL first."@)
                    } else {
                        &&& (match r {
                            Effect::Verify { url: u, token } => u@ == url && token@ == t,
                            _ => false,
                        })
                        &&& *final(state) == (State { busy: true, error: None, ..*old(state) })
                    },
                }
            },
            Message::SignOut => *final(state) == (State { busy: true, ..*old(state) }) && match r {
                Effect::SignOut { url, refresh } => match old(state).session {
                    Some(s) => url@ == s.url@ && refresh@ == s.refresh_token@,
                    None => url@ == cloud_url(old(state).url@) && refresh@.len() == 0,
                },
                _ => false,
            },
            Message::SignedOut(result) => {
                &&& r is Nothing
                &&& final(state).paste@.len() == 0
                &&& match result {
                    Ok(()) => *final(state) == (State {
                        busy: false,
                        waiting: false,
                        session: None,
                        paste: final(state).paste,
                        notice: final(state).notice,
                        ..*old(state)
                    }) && says(final(state).notice, "Signed out. Local work is unchanged."@),
                    Err(e) => *final(state) == (State {
                        busy: false,
                        waiting: false,
                        session: None,
                        paste: final(state).paste,
                        error: Some(e),
                        ..*old(state)
                    }),
                }
            },
        },
{
    match msg {
        Message::UrlChanged(v) => {
            state.url = v;
            Effect::Nothing
        },
        Message::EmailChanged(v) => {
            state.email = v;
            Effect::Nothing
        },
        Message::PasteChanged(v) => {
            state.paste = v;
            Effect::Nothing
        },
        Message::Dismiss => {
            state.error = None;
            state.notice = None;
            Effect::Nothing
        },
        Message::SendLink => {
            let url = cloud_url_of(state.url.as_str());
            let email = trim_str(state.email.as_str());
            if chars_of(url.as_str()).len() == 0 {
                state.error = Some("Enter the cloud URL first.".to_string());
                return Effect::Nothing;
            }
            if !contains_at(email.as_str()) {
                state.error = Some("Enter the email the magic link should reach.".to_string());
                return Effect::Nothing;
            }
            state.busy = true;
            state.waiting = true;
            state.error = None;
            state.notice = Some(
                "Check your email and open the link. This window will sign in when it lands.".to_string(),
            );
            Effect::SendLink { url, email }
        },
        Message::SignedIn(Ok(session)) => {
            state.busy = false;
            state.waiting = false;
            state.paste = String::new();
            Effect::Save(session)
        },
        Message::SignedIn(Err(e)) => {
            state.busy = false;
            state.waiting = false;
            state.error = Some(e);
            Effect::Nothing
        },
        Message::Saved(Ok(session)) => {
            state.url = session.url.clone();
            state.email = session.email.clone();
            state.session = Some(session);
            state.notice = Some(
                "Signed in. Pick Platform AI as the provider to use hosted models.".to_string(),
            );
            Effect::Nothing
        },
        Message::Saved(Err(e)) => {
            state.error = Some(e);
            Effect::Nothing
        },
        Message::PasteVerify => {
            let url = cloud_url_of(state.url.as_str());
            let token = match extract_magic_token(state.paste.as_str()) {
                Some(t) => t,
                None => {
                    state.error = Some("Paste the magic link, or the token from it.".to_string());
                    return Effect::Nothing;
                },
            };
            if chars_of(url.as_str()).len() == 0 {
                state.error = Some("Enter the cloud URL first.".to_string());
                return Effect::Nothing;
            }
            state.busy = true;
            state.error = None;
            Effect::Verify { url, token }
        },
        Message::SignOut => {
            let (url, refresh) = match &state.session {
                Some(s) => (s.url.clone(), s.refresh_token.clone()),
                None => (cloud_url_of(state.url.as_str()), String::new()),
            };
            state.busy = true;
            Effect::SignOut { url, refresh }
        },
        Message::SignedOut(result) => {
            state.busy = false;
            state.waiting = false;
            state.session = None;
            state.paste = String::new();
            match result {
                Ok(()) => {
                    state.notice = Some("Signed out. Local work is unchanged.".to_string());
                },
                Err(e) => {
                    state.error = Some(e);
                },
            }
            Effect::Nothing
        },
    }
}

} // verus!
