//! Checkpoints: a git repository of the agent's own over the user's files,
//! one commit per turn that changed something. The git runs belong to the
//! program around this library; what is here is every decision about what
//! goes into git and how its answers are read back.
use vstd::prelude::*;
use crate::text::{
    blank, bytes_len, char_views, chars_of, find_char, first_n, has_prefix, is_blank, lines_chars,
    lines_of, push_all, push_str, slice_chars, split_char, split_chars, starts_with_str,
    strip_end, strip_end_chars, string_of, take_chars, trim, trim_chars, trim_end, trim_end_chars,
    utf8_len, chars_within,
};

verus! {

/// The checkpoint repository, relative to the workspace root.
pub const REL_GIT_DIR: &'static str = ".agent/git";

/// Where a session's isolated checkout lives, relative to the project.
pub const REL_WORKTREES: &'static str = ".agent/worktrees";

/// What the checkpoint repository leaves out: directories the agent never
/// writes, and its own state.
pub const EXCLUDE: &'static str = "node_modules/\n.agent/\ndist/\nbuild/\n.next/\ntarget/\n";

/// Commits shown in the timeline.
pub const MAX_LISTED: usize = 50;

/// Longest commit subject.
pub const MAX_SUBJECT: usize = 120;

/// Files listed for one checkpoint.
pub const MAX_CHANGED: usize = 200;

/// One commit in the timeline.
#[derive(Debug, Clone, PartialEq)]
pub struct Checkpoint {
    pub sha: String,
    /// The prompt that produced the turn.
    pub message: String,
    /// Relative age, as git renders it ("2 minutes ago").
    pub when: String,
}

/// The first eight bytes of the sha, as characters.
pub open spec fn short_spec(sha: Seq<char>) -> Seq<char> {
    sha.take(chars_within(sha, 8) as int)
}

/// Whether eight bytes into the sha (or its end, when shorter) falls between
/// two characters, so that a byte slice there is a string.
pub open spec fn short_cut_ok(sha: Seq<char>) -> bool {
    bytes_len(short_spec(sha)) == if bytes_len(sha) < 8 {
        bytes_len(sha)
    } else {
        8
    }
}

impl Checkpoint {
    /// The sha as it is shown: its first eight bytes, long enough to paste
    /// into a real `git` command.
    pub fn short(&self) -> (r: String)
        requires
            short_cut_ok(self.sha@),
        ensures
            r@ == short_spec(self.sha@),
    {
        let v = chars_of(self.sha.as_str());
        let mut used: usize = 0;
        let mut i: usize = 0;
        assert(v@.skip(0) =~= v@);
        while i < v.len()
            invariant
                v@ == self.sha@,
                i <= v@.len(),
                used <= 8,
                chars_within(v@, 8) == i + chars_within(v@.skip(i as int), (8 - used) as nat),
            decreases v@.len() - i,
        {
            let u: u32 = v[i] as u32;
            let w: usize = if u < 0x80 {
                1
            } else if u < 0x800 {
                2
            } else if u < 0x10000 {
                3
            } else {
                4
            };
            assert(v@.skip(i as int)[0] == v@[i as int]);
            if used + w > 8 {
                assert(chars_within(v@.skip(i as int), (8 - used) as nat) == 0);
                assert(v@.subrange(0, i as int) =~= v@.take(i as int));
                return string_of(&slice_chars(&v, 0, i));
            }
            assert(v@.skip(i as int).drop_first() =~= v@.skip(i + 1));
            used = used + w;
            i = i + 1;
        }
        assert(v@.skip(i as int) =~= Seq::<char>::empty());
        assert(v@.subrange(0, i as int) =~= v@.take(i as int));
        string_of(&slice_chars(&v, 0, i))
    }
}

/// A path as git will accept it: Windows' verbatim prefix `\\?\` taken off,
/// and `\\?\UNC\server\share` turned back into `\\server\share`. Everything
/// else is left alone.
pub open spec fn plain_spec(path: Seq<char>) -> Seq<char> {
    let verbatim = "\\\\?\\"@;
    let unc = "UNC\\"@;
    if verbatim.is_prefix_of(path) {
        let rest = path.skip(verbatim.len() as int);
        if unc.is_prefix_of(rest) {
            "\\\\"@ + rest.skip(unc.len() as int)
        } else {
            rest
        }
    } else {
        path
    }
}

pub fn plain(path: &str) -> (r: String)
    ensures
        r@ == plain_spec(path@),
{
    let v = chars_of(path);
    let verbatim = chars_of("\\\\?\\");
    if !has_prefix(&v, &verbatim) {
        return path.to_owned();
    }
    let rest = slice_chars(&v, verbatim.len(), v.len());
    assert(rest@ =~= v@.skip(verbatim@.len() as int));
    let unc = chars_of("UNC\\");
    if has_prefix(&rest, &unc) {
        let mut out = chars_of("\\\\");
        let share = slice_chars(&rest, unc.len(), rest.len());
        assert(share@ =~= rest@.skip(unc@.len() as int));
        push_all(&mut out, &share);
        string_of(&out)
    } else {
        string_of(&rest)
    }
}

// ---------------------------------------------------------------------------
// The folder's own repository
// ---------------------------------------------------------------------------

/// A separator on some platform: `/` everywhere, `\\` on Windows.
pub open spec fn is_sep(c: char) -> bool {
    c == '/' || c == '\\'
}

/// The path splits at `i` alike on every platform: a `/` with a plain name
/// after it (not `.`, with no separator in it), and before it a folder that
/// does not end in a separator, a `:` or a `.`, in a path that does not start
/// with two separators (a Windows network or verbatim prefix). Its parent is
/// then the text before that `/`.
pub open spec fn plain_parent_at(t: Seq<char>, i: int) -> bool {
    &&& 0 < i < t.len() - 1
    &&& t[i] == '/'
    &&& forall|j: int| i < j < t.len() ==> !is_sep(#[trigger] t[j])
    &&& (t.len() != i + 2 || t[i + 1] != '.')
    &&& !is_sep(t[i - 1]) && t[i - 1] != ':' && t[i - 1] != '.'
    &&& !(is_sep(t[0]) && is_sep(t[1]))
}

/// `Path::new(path).parent()` as text: the folder above, or nothing at a
/// root. The parent is a slice of the path itself, its leading part and
/// shorter than it; where the path splits alike on every platform it is the
/// text before that split. Elsewhere which prefix it is, and when there is
/// none, is the platform's (a `\\` is a separator on Windows and not
/// elsewhere, a drive or network prefix keeps its root) and left unsaid.
#[verifier::external_body]
fn path_parent(path: &str) -> (r: Option<String>)
    ensures
        match r {
            Some(q) => q@.len() < path@.len() && q@.is_prefix_of(path@),
            None => true,
        },
        forall|i: int| plain_parent_at(path@, i) ==> r is Some && r->0@ == path@.take(i),
{
    std::path::Path::new(path).parent().map(|q| q.display().to_string())
}

/// Whether `chain` starts at the folder and climbs: each entry is a leading
/// part of the one before it, and shorter; where an entry splits alike on
/// every platform the next is the text before that split; and the last is
/// not one that splits so.
pub open spec fn ancestor_chain(root: Seq<char>, chain: Seq<Seq<char>>) -> bool {
    &&& chain.len() > 0
    &&& chain[0] == root
    &&& forall|i: int|
        0 <= i < chain.len() - 1 ==> (#[trigger] chain[i + 1]).len() < chain[i].len() && chain[i
            + 1].is_prefix_of(chain[i])
    &&& forall|i: int, j: int|
        0 <= i < chain.len() - 1 && #[trigger] plain_parent_at(chain[i], j) ==> chain[i + 1] == chain[i].take(j)
    &&& forall|j: int| !plain_parent_at(chain.last(), j)
}

/// The folder and every folder above it, nearest first, up to the root
/// (`Path::parent` until there is none): where a repository of the user's own
/// is looked for, a `.git` in any of them. The checkpoint repository is
/// `.agent/git` and never a `.git`, so it cannot count.
pub fn ancestors(root: &str) -> (r: Vec<String>)
    ensures
        ancestor_chain(root@, crate::text::texts(r@)),
{
    let mut out: Vec<String> = Vec::new();
    let mut cur: String = root.to_owned();
    out.push(root.to_owned());
    loop
        invariant
            out@.len() > 0,
            crate::text::texts(out@)[0] == root@,
            crate::text::texts(out@).last() == cur@,
            forall|i: int|
                0 <= i < out@.len() - 1 ==> (#[trigger] crate::text::texts(out@)[i + 1]).len()
                    < crate::text::texts(out@)[i].len() && crate::text::texts(out@)[i + 1].is_prefix_of(
                    crate::text::texts(out@)[i],
                ),
            forall|i: int, j: int|
                0 <= i < out@.len() - 1 && #[trigger] plain_parent_at(crate::text::texts(out@)[i], j)
                    ==> crate::text::texts(out@)[i + 1] == crate::text::texts(out@)[i].take(j),
        decreases cur@.len(),
    {
        match path_parent(cur.as_str()) {
            Some(q) => {
                let ghost o0 = out@;
                let ghost c0 = cur@;
                out.push(q.clone());
                proof {
                    crate::text::lemma_texts_push(o0, q);
                    assert(crate::text::texts(out@)[o0.len() - 1] == c0);
                }
                cur = q;
            },
            None => {
                return out;
            },
        }
    }
}

/// What a failed git call reports: its stderr, trimmed, or just that it
/// failed when it said nothing.
pub open spec fn failed_spec(what: Seq<char>, stderr: Seq<char>) -> Seq<char> {
    let detail = trim(stderr);
    if detail.len() == 0 {
        "git "@ + what + " failed"@
    } else {
        "git "@ + what + ": "@ + detail
    }
}

pub fn failed(what: &str, stderr: &str) -> (r: String)
    ensures
        r@ == failed_spec(what@, stderr@),
{
    let v = chars_of(stderr);
    let detail = trim_chars(&v);
    let mut out: Vec<char> = Vec::new();
    push_str(&mut out, "git ");
    push_str(&mut out, what);
    if detail.len() == 0 {
        push_str(&mut out, " failed");
    } else {
        push_str(&mut out, ": ");
        push_all(&mut out, &detail);
    }
    string_of(&out)
}

/// The first line of `s` that is not blank; empty when every line is.
pub open spec fn first_filled_line(s: Seq<char>) -> Seq<char>
    decreases s.len(),
{
    let k = find_char(s, '\n');
    if k >= s.len() {
        if blank(s) {
            Seq::empty()
        } else {
            s
        }
    } else if !blank(s.take(k)) {
        s.take(k)
    } else {
        proof {
            crate::text::lemma_find_char_range(s, '\n');
        }
        first_filled_line(s.skip(k + 1))
    }
}

/// The commit subject for a turn: its first non-blank line, trimmed and
/// capped at [`MAX_SUBJECT`] characters, or `agent turn` when there is none.
pub open spec fn subject_spec(message: Seq<char>) -> Seq<char> {
    let capped = first_n(trim(first_filled_line(message)), MAX_SUBJECT as nat);
    if capped.len() == 0 {
        "agent turn"@
    } else {
        capped
    }
}

fn first_filled(v: &Vec<char>) -> (r: Vec<char>)
    ensures
        r@ == first_filled_line(v@),
{
    let mut pos: usize = 0;
    assert(v@.skip(0) =~= v@);
    loop
        invariant
            pos <= v@.len(),
            first_filled_line(v@) == first_filled_line(v@.skip(pos as int)),
        decreases v@.len() - pos,
    {
        let end = crate::text::find_char_from(v, pos, '\n');
        let piece = slice_chars(v, pos, end);
        let ghost rest = v@.skip(pos as int);
        assert(piece@ =~= rest.take(end - pos));
        let empty = is_blank(string_of(&piece).as_str());
        if end == v.len() {
            assert(rest.take(end - pos) =~= rest);
            if empty {
                return Vec::new();
            }
            return piece;
        }
        if !empty {
            return piece;
        }
        assert(rest.skip(end - pos + 1) =~= v@.skip(end + 1));
        pos = end + 1;
    }
}

pub fn subject(message: &str) -> (r: String)
    ensures
        r@ == subject_spec(message@),
{
    let v = chars_of(message);
    let line = first_filled(&v);
    let t = trim_chars(&line);
    let capped = take_chars(&t, MAX_SUBJECT);
    if capped.len() == 0 {
        "agent turn".to_owned()
    } else {
        string_of(&capped)
    }
}

/// One line of `git log --format=%H%x00%s%x00%cr`: sha, subject and age,
/// NUL-separated, trailing `\r`s dropped. Nothing for a line with fewer than
/// three fields.
pub open spec fn log_entry(line: Seq<char>) -> Option<(Seq<char>, Seq<char>, Seq<char>)> {
    let f = split_char(strip_end(line, '\r'), '\0');
    if f.len() >= 3 {
        Some((f[0], f[1], f[2]))
    } else {
        None
    }
}

/// The checkpoints a log lists, in its order, skipping lines without a sha.
pub open spec fn log_entries(lines: Seq<Seq<char>>) -> Seq<(Seq<char>, Seq<char>, Seq<char>)>
    decreases lines.len(),
{
    if lines.len() == 0 {
        Seq::empty()
    } else {
        let rest = log_entries(lines.drop_last());
        match log_entry(lines.last()) {
            Some(e) => if e.0.len() > 0 {
                rest.push(e)
            } else {
                rest
            },
            None => rest,
        }
    }
}

pub open spec fn checkpoint_views(s: Seq<Checkpoint>) -> Seq<(Seq<char>, Seq<char>, Seq<char>)> {
    s.map_values(|c: Checkpoint| (c.sha@, c.message@, c.when@))
}

/// Every checkpoint in the output of the log command, newest first.
/// NUL-separated because the message is the user's prompt and can hold
/// anything a friendlier separator would be.
pub fn parse_log(stdout: &str) -> (r: Vec<Checkpoint>)
    ensures
        checkpoint_views(r@) == log_entries(lines_of(stdout@)),
{
    let v = chars_of(stdout);
    let lines = lines_chars(&v);
    let ghost lv = char_views(lines@);
    let mut out: Vec<Checkpoint> = Vec::new();
    let mut i: usize = 0;
    while i < lines.len()
        invariant
            lv == char_views(lines@),
            lv == lines_of(stdout@),
            i <= lines@.len(),
            checkpoint_views(out@) == log_entries(lv.take(i as int)),
        decreases lines@.len() - i,
    {
        proof {
            assert(lv.take(i + 1).drop_last() =~= lv.take(i as int));
            assert(lv.take(i + 1).last() == lines@[i as int]@);
        }
        let line = strip_end_chars(&lines[i], '\r');
        let fields = split_chars(&line, '\0');
        if fields.len() >= 3 && fields[0].len() > 0 {
            let ghost prev = out@;
            let c = Checkpoint {
                sha: string_of(&fields[0]),
                message: string_of(&fields[1]),
                when: string_of(&fields[2]),
            };
            out.push(c);
            proof {
                assert(char_views(fields@)[0] == fields@[0]@);
                assert(char_views(fields@)[1] == fields@[1]@);
                assert(char_views(fields@)[2] == fields@[2]@);
                assert(checkpoint_views(out@) =~= checkpoint_views(prev).push(
                    (c.sha@, c.message@, c.when@),
                ));
            }
        } else {
            proof {
                if fields@.len() >= 3 {
                    assert(char_views(fields@)[0] == fields@[0]@);
                }
            }
        }
        i = i + 1;
    }
    assert(lv.take(i as int) =~= lv);
    out
}

/// What one checkpoint changed, as the screen shows it: the patch, or a
/// line saying there was nothing.
pub open spec fn diff_text_spec(stdout: Seq<char>) -> Seq<char> {
    let t = trim_end(stdout);
    if t.len() == 0 {
        "(this checkpoint changed nothing)"@
    } else {
        t
    }
}

pub fn diff_text(stdout: &str) -> (r: String)
    ensures
        r@ == diff_text_spec(stdout@),
{
    let v = chars_of(stdout);
    let t = trim_end_chars(&v);
    if t.len() == 0 {
        "(this checkpoint changed nothing)".to_owned()
    } else {
        string_of(&t)
    }
}

/// One file a checkpoint touched, and git's letter for what it did to it.
#[derive(Debug, Clone, PartialEq)]
pub struct Change {
    pub status: char,
    /// Repo-relative, as git spells it.
    pub path: String,
}

/// What one checkpoint touched, file by file.
#[derive(Debug, Clone, PartialEq)]
pub struct Changes {
    pub files: Vec<Change>,
    /// Whether there is a commit before this one: false for the baseline.
    pub revertable: bool,
    /// Files beyond [`MAX_CHANGED`].
    pub hidden: usize,
}

/// One line of `git show --name-status`: the status letter (the first
/// character of the first tab-separated field) and the path (the last field,
/// trimmed). Nothing for a line with one field, an empty status or no path.
pub open spec fn change_entry(line: Seq<char>) -> Option<(char, Seq<char>)> {
    let f = split_char(strip_end(line, '\r'), '\t');
    if f.len() >= 2 && f[0].len() > 0 && trim(f.last()).len() > 0 {
        Some((f[0][0], trim(f.last())))
    } else {
        None
    }
}

pub open spec fn change_entries(lines: Seq<Seq<char>>) -> Seq<(char, Seq<char>)>
    decreases lines.len(),
{
    if lines.len() == 0 {
        Seq::empty()
    } else {
        let rest = change_entries(lines.drop_last());
        match change_entry(lines.last()) {
            Some(e) => rest.push(e),
            None => rest,
        }
    }
}

pub open spec fn change_views(s: Seq<Change>) -> Seq<(char, Seq<char>)> {
    s.map_values(|c: Change| (c.status, c.path@))
}

proof fn lemma_change_views_push(s: Seq<Change>, c: Change)
    ensures
        change_views(s.push(c)) == change_views(s).push((c.status, c.path@)),
{
    assert(change_views(s.push(c)) =~= change_views(s).push((c.status, c.path@)));
}

/// The files of one checkpoint from the name-status listing: at most
/// [`MAX_CHANGED`] of them, with the count of the rest.
pub fn parse_changes(stdout: &str, revertable: bool) -> (r: Changes)
    ensures
        ({
            let all = change_entries(lines_of(stdout@));
            &&& change_views(r.files@) == if all.len() <= MAX_CHANGED {
                all
            } else {
                all.take(MAX_CHANGED as int)
            }
            &&& r.hidden == if all.len() <= MAX_CHANGED {
                0
            } else {
                all.len() - MAX_CHANGED
            }
            &&& r.revertable == revertable
        }),
{
    let v = chars_of(stdout);
    let lines = lines_chars(&v);
    let ghost lv = char_views(lines@);
    let mut files: Vec<Change> = Vec::new();
    let mut total: usize = 0;
    let mut i: usize = 0;
    while i < lines.len()
        invariant
            lv == char_views(lines@),
            lv == lines_of(stdout@),
            i <= lines@.len(),
            total == change_entries(lv.take(i as int)).len(),
            total <= i,
            change_views(files@) == if total <= MAX_CHANGED {
                change_entries(lv.take(i as int))
            } else {
                change_entries(lv.take(i as int)).take(MAX_CHANGED as int)
            },
        decreases lines@.len() - i,
    {
        proof {
            assert(lv.take(i + 1).drop_last() =~= lv.take(i as int));
            assert(lv.take(i + 1).last() == lines@[i as int]@);
        }
        let line = strip_end_chars(&lines[i], '\r');
        let fields = split_chars(&line, '\t');
        let n = fields.len();
        if n >= 2 && fields[0].len() > 0 {
            let path = trim_chars(&fields[n - 1]);
            if path.len() > 0 {
                let status = fields[0][0];
                proof {
                    assert(char_views(fields@)[0] == fields@[0]@);
                    assert(char_views(fields@).last() == fields@[n - 1]@);
                }
                let ghost before = change_entries(lv.take(i as int));
                let ghost e = (status, path@);
                assert(change_entries(lv.take(i + 1)) == before.push(e));
                if files.len() < MAX_CHANGED {
                    let ghost prev = files@;
                    let c = Change { status, path: string_of(&path) };
                    proof {
                        lemma_change_views_push(prev, c);
                    }
                    files.push(c);
                    assert(before.push(e).len() <= MAX_CHANGED ==> before.push(e) =~= change_views(
                        files@,
                    ));
                    assert(before.push(e).len() > MAX_CHANGED ==> before.push(e).take(
                        MAX_CHANGED as int,
                    ) =~= change_views(files@));
                } else {
                    assert(before.push(e).take(MAX_CHANGED as int) =~= if total <= MAX_CHANGED {
                        before
                    } else {
                        before.take(MAX_CHANGED as int)
                    });
                }
                total = total + 1;
            } else {
                proof {
                    assert(char_views(fields@).last() == fields@[n - 1]@);
                }
            }
        } else {
            proof {
                if n >= 2 {
                    assert(char_views(fields@)[0] == fields@[0]@);
                }
            }
        }
        i = i + 1;
    }
    assert(lv.take(i as int) =~= lv);
    let hidden = if total > MAX_CHANGED {
        total - MAX_CHANGED
    } else {
        0
    };
    Changes { files, revertable, hidden }
}

/// The clone's exclude file with `.agent/` added, or nothing when a line of
/// it already says `.agent/`. The new line goes on a line of its own.
pub open spec fn exclude_update_spec(current: Seq<char>) -> Option<Seq<char>> {
    if exists|i: int| 0 <= i < lines_of(current).len() && #[trigger] trim(lines_of(current)[i])
        == ".agent/"@ {
        None
    } else if current.len() == 0 || current.last() == '\n' {
        Some(current + ".agent/\n"@)
    } else {
        Some(current + "\n"@ + ".agent/\n"@)
    }
}

pub fn exclude_update(current: &str) -> (r: Option<String>)
    ensures
        match exclude_update_spec(current@) {
            Some(t) => r is Some && r->0@ == t,
            None => r is None,
        },
{
    let v = chars_of(current);
    let lines = lines_chars(&v);
    let mut i: usize = 0;
    while i < lines.len()
        invariant
            char_views(lines@) == lines_of(current@),
            i <= lines@.len(),
            forall|j: int| 0 <= j < i ==> #[trigger] trim(lines_of(current@)[j]) != ".agent/"@,
        decreases lines@.len() - i,
    {
        let t = trim_chars(&lines[i]);
        assert(char_views(lines@)[i as int] == lines@[i as int]@);
        if crate::text::str_eq(string_of(&t).as_str(), ".agent/") {
            return None;
        }
        i = i + 1;
    }
    let mut out = v;
    if out.len() > 0 && out[out.len() - 1] != '\n' {
        push_str(&mut out, "\n");
    }
    push_str(&mut out, ".agent/\n");
    Some(string_of(&out))
}

// ---------------------------------------------------------------------------
// Laws
// ---------------------------------------------------------------------------

proof fn lemma_find_char_before(s: Seq<char>, c: char)
    ensures
        forall|j: int| 0 <= j < crate::text::find_char(s, c) && j < s.len() ==> #[trigger] s[j] != c,
        crate::text::find_char(s, c) < s.len() ==> s[crate::text::find_char(s, c)] == c,
    decreases s.len(),
{
    if s.len() > 0 && s[0] != c {
        let t = s.drop_first();
        lemma_find_char_before(t, c);
        let kt = crate::text::find_char(t, c);
        crate::text::lemma_find_char_range(t, c);
        assert(crate::text::find_char(s, c) == 1 + kt);
        if kt < t.len() {
            assert(s[1 + kt] == t[kt]);
        }
        assert forall|j: int| 0 <= j < crate::text::find_char(s, c) && j < s.len() implies #[trigger] s[j] != c by {
            if j > 0 {
                assert(s[j] == t[j - 1]);
            }
        }
    }
}

proof fn lemma_first_filled_one_line(s: Seq<char>)
    ensures
        !first_filled_line(s).contains('\n'),
    decreases s.len(),
{
    let k = crate::text::find_char(s, '\n');
    crate::text::lemma_find_char_range(s, '\n');
    lemma_find_char_before(s, '\n');
    if k >= s.len() {
        assert(!s.contains('\n'));
    } else if !blank(s.take(k)) {
        assert(!s.take(k).contains('\n'));
    } else {
        lemma_first_filled_one_line(s.skip(k + 1));
    }
}

/// A turn's commit subject is one line, never longer than [`MAX_SUBJECT`]
/// characters, and never empty.
pub proof fn a_subject_is_one_short_line(message: Seq<char>)
    ensures
        !subject_spec(message).contains('\n'),
        subject_spec(message).len() <= MAX_SUBJECT,
        subject_spec(message).len() > 0,
{
    reveal_strlit("agent turn");
    let line = first_filled_line(message);
    lemma_first_filled_one_line(line);
    lemma_first_filled_one_line(message);
    let (a, b) = crate::text::lemma_trim_bounds(line);
    let t = trim(line);
    assert(!t.contains('\n')) by {
        if t.contains('\n') {
            let w = choose|w: int| 0 <= w < t.len() && t[w] == '\n';
            assert(line[a + w] == '\n');
        }
    }
    let capped = first_n(t, MAX_SUBJECT as nat);
    assert(!capped.contains('\n')) by {
        if capped.contains('\n') {
            let w = choose|w: int| 0 <= w < capped.len() && capped[w] == '\n';
            assert(t[w] == '\n');
        }
    }
    if capped.len() == 0 {
        assert(!"agent turn"@.contains('\n')) by {
            if "agent turn"@.contains('\n') {
                let w = choose|w: int| 0 <= w < "agent turn"@.len() && "agent turn"@[w] == '\n';
                assert(false);
            }
        }
    }
}

proof fn lemma_lines_of_appended(x: Seq<char>, l: Seq<char>)
    requires
        x.len() == 0 || x.last() == '\n',
        !l.contains('\n'),
    ensures
        lines_of(x + l + "\n"@).contains(l),
    decreases x.len(),
{
    reveal_strlit("\n");
    let s = x + l + "\n"@;
    crate::text::lemma_find_char_range(s, '\n');
    if x.len() == 0 {
        assert(s =~= l + "\n"@);
        assert forall|j: int| 0 <= j < l.len() implies #[trigger] s[j] != '\n' by {
            assert(s[j] == l[j]);
        }
        crate::text::lemma_find_char(s, '\n', l.len() as int);
        assert(s.take(l.len() as int) =~= l);
        assert(lines_of(s)[0] == l);
    } else {
        let k = crate::text::find_char(x, '\n');
        crate::text::lemma_find_char_range(x, '\n');
        lemma_find_char_before(x, '\n');
        if k >= x.len() {
            assert(x[x.len() - 1] == '\n');
            assert(false);
        }
        assert forall|j: int| 0 <= j < k implies #[trigger] s[j] != '\n' by {
            assert(s[j] == x[j]);
        }
        assert(s[k] == x[k]);
        crate::text::lemma_find_char(s, '\n', k);
        let y = x.skip(k + 1);
        assert(s.skip(k + 1) =~= y + l + "\n"@);
        if y.len() > 0 {
            assert(y.last() == x.last());
        }
        lemma_lines_of_appended(y, l);
        let rest = lines_of(y + l + "\n"@);
        let w = choose|w: int| 0 <= w < rest.len() && rest[w] == l;
        assert(lines_of(s) == seq![s.take(k)] + rest);
        assert(lines_of(s)[w + 1] == l);
    }
}

/// The exclude file needs updating at most once: what one update writes
/// already says `.agent/`, so a second finds nothing to add.
pub proof fn excluding_twice_changes_nothing(current: Seq<char>)
    ensures
        match exclude_update_spec(current) {
            Some(t) => exclude_update_spec(t) is None && current.is_prefix_of(t),
            None => true,
        },
{
    reveal_strlit(".agent/\n");
    reveal_strlit(".agent/");
    reveal_strlit("\n");
    let l = ".agent/"@;
    assert(!l.contains('\n')) by {
        if l.contains('\n') {
            let w = choose|w: int| 0 <= w < l.len() && l[w] == '\n';
            assert(false);
        }
    }
    assert(".agent/\n"@ =~= l + "\n"@);
    crate::text::lemma_trim_start_skip(l, 0);
    assert(l.skip(0) =~= l);
    crate::text::lemma_trim_end_take(l, l.len() as int);
    assert(l.take(l.len() as int) =~= l);
    assert(trim(l) == l);
    match exclude_update_spec(current) {
        Some(t) => {
            if current.len() == 0 || current.last() == '\n' {
                assert(t =~= current + l + "\n"@);
                lemma_lines_of_appended(current, l);
            } else {
                let x = current + "\n"@;
                assert(t =~= x + l + "\n"@);
                lemma_lines_of_appended(x, l);
            }
            let ls = lines_of(t);
            let w = choose|w: int| 0 <= w < ls.len() && ls[w] == l;
            assert(trim(ls[w]) == ".agent/"@);
            assert(current.is_prefix_of(t));
        },
        None => {},
    }
}

} // verus!
