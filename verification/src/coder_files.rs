//! The workspace as a tree, and one file at a time as text.
//!
//! The tree is flattened on demand: only the directories the user opened are
//! walked, directories first and then by name, ignoring case.
use vstd::prelude::*;
use crate::apidocs::{lex_less, lex_lt};
use crate::text::{chars_of, lossy, nat_text, push_str, push_u64, str_eq, string_of, to_lowercase, lowercase};

verus! {

/// The biggest file the viewer reads; past this it is generated or a dump.
pub const MAX_VIEW_BYTES: usize = 524288;

/// Entries kept per directory; a folder past this is a dependency cache by
/// another name.
pub const MAX_ENTRIES: usize = 1000;

/// What the viewer says of a file with a NUL byte near its start.
pub const BINARY: &'static str = "this looks like a binary file";

/// One row of the tree.
#[derive(Debug)]
pub struct Entry {
    pub path: String,
    /// The file name alone; the row is indented by `depth`.
    pub name: String,
    pub is_dir: bool,
    /// How far below the workspace root.
    pub depth: usize,
}

/// One entry of a directory as it was read.
#[derive(Debug)]
pub struct DirItem {
    pub path: String,
    pub name: String,
    pub is_dir: bool,
}

/// One directory as it was read.
#[derive(Debug)]
pub struct Listing {
    pub dir: String,
    pub items: Vec<DirItem>,
}

pub ghost struct ItemV {
    pub path: Seq<char>,
    pub name: Seq<char>,
    pub is_dir: bool,
}

pub ghost struct EntryV {
    pub path: Seq<char>,
    pub name: Seq<char>,
    pub is_dir: bool,
    pub depth: nat,
}

impl View for DirItem {
    type V = ItemV;

    open spec fn view(&self) -> ItemV {
        ItemV { path: self.path@, name: self.name@, is_dir: self.is_dir }
    }
}

impl View for Entry {
    type V = EntryV;

    open spec fn view(&self) -> EntryV {
        EntryV { path: self.path@, name: self.name@, is_dir: self.is_dir, depth: self.depth as nat }
    }
}

pub open spec fn item_views(s: Seq<DirItem>) -> Seq<ItemV> {
    s.map_values(|i: DirItem| i@)
}

pub open spec fn entry_views(s: Seq<Entry>) -> Seq<EntryV> {
    s.map_values(|e: Entry| e@)
}

pub open spec fn texts(s: Seq<String>) -> Seq<Seq<char>> {
    crate::text::texts(s)
}

/// The directories the tree leaves out besides hidden ones: build output and
/// tooling state, the set the checkpoint repo leaves out too.
pub open spec fn skip_dirs_spec() -> Seq<Seq<char>> {
    seq!["node_modules"@, ".agent"@, "dist"@, "build"@, ".next"@, "target"@]
}

pub fn skip_dirs() -> (r: Vec<String>)
    ensures
        texts(r@) == skip_dirs_spec(),
{
    let mut r: Vec<String> = Vec::new();
    r.push("node_modules".to_owned());
    r.push(".agent".to_owned());
    r.push("dist".to_owned());
    r.push("build".to_owned());
    r.push(".next".to_owned());
    r.push("target".to_owned());
    assert(texts(r@) =~= skip_dirs_spec());
    r
}

/// Whether the tree shows an entry: every file, and every directory but
/// hidden ones and the build and tooling directories in `skip`.
pub open spec fn shown(i: ItemV, skip: Seq<Seq<char>>) -> bool {
    !(i.is_dir && (skip.contains(i.name) || (i.name.len() > 0 && i.name[0] == '.')))
}

/// The shown entries, in the order they were read.
pub open spec fn kept(s: Seq<ItemV>, skip: Seq<Seq<char>>) -> Seq<ItemV>
    decreases s.len(),
{
    if s.len() == 0 {
        Seq::empty()
    } else if shown(s.last(), skip) {
        kept(s.drop_last(), skip).push(s.last())
    } else {
        kept(s.drop_last(), skip)
    }
}

/// At most the first [`MAX_ENTRIES`].
pub open spec fn capped(s: Seq<ItemV>) -> Seq<ItemV> {
    if s.len() > MAX_ENTRIES {
        s.take(MAX_ENTRIES as int)
    } else {
        s
    }
}

/// Whether `x` is listed strictly before `y`: directories first, then by
/// name, ignoring case.
pub open spec fn item_lt(x: ItemV, y: ItemV) -> bool {
    (x.is_dir && !y.is_dir) || (x.is_dir == y.is_dir && lex_lt(lowercase(x.name), lowercase(y.name)))
}

pub open spec fn insert_pos(t: Seq<ItemV>, x: ItemV) -> int
    decreases t.len(),
{
    if t.len() == 0 || item_lt(x, t[0]) {
        0
    } else {
        1 + insert_pos(t.drop_first(), x)
    }
}

pub open spec fn insert_sorted(t: Seq<ItemV>, x: ItemV) -> Seq<ItemV> {
    let k = insert_pos(t, x);
    t.take(k).push(x) + t.skip(k)
}

/// The entries in the tree's order, those that tie keeping the order they
/// were read in.
pub open spec fn sorted(s: Seq<ItemV>) -> Seq<ItemV>
    decreases s.len(),
{
    if s.len() == 0 {
        Seq::empty()
    } else {
        insert_sorted(sorted(s.drop_last()), s.last())
    }
}

/// A directory's entries as the tree lists them.
pub open spec fn arranged(s: Seq<ItemV>, skip: Seq<Seq<char>>) -> Seq<ItemV> {
    sorted(capped(kept(s, skip)))
}

pub ghost struct ListingV {
    pub dir: Seq<char>,
    pub items: Seq<ItemV>,
}

pub open spec fn listing_views(s: Seq<Listing>) -> Seq<ListingV> {
    s.map_values(|l: Listing| ListingV { dir: l.dir@, items: item_views(l.items@) })
}

/// What was read of `dir`: the first listing of it, if any.
pub open spec fn listing_of(ls: Seq<ListingV>, dir: Seq<char>) -> Option<Seq<ItemV>>
    decreases ls.len(),
{
    if ls.len() == 0 {
        None
    } else if ls[0].dir == dir {
        Some(ls[0].items)
    } else {
        listing_of(ls.drop_first(), dir)
    }
}

/// The rows of `dir` and of every opened directory under it, depth first,
/// going at most `fuel` directories down.
pub open spec fn rows(
    ls: Seq<ListingV>,
    open: Seq<Seq<char>>,
    skip: Seq<Seq<char>>,
    dir: Seq<char>,
    depth: nat,
    fuel: nat,
) -> Seq<EntryV>
    decreases fuel, 1int, 0int,
{
    match listing_of(ls, dir) {
        None => Seq::empty(),
        Some(items) => rows_items(ls, open, skip, arranged(items, skip), depth, fuel),
    }
}

/// The rows of these entries, each followed by its own rows when it is an
/// opened directory.
pub open spec fn rows_items(
    ls: Seq<ListingV>,
    open: Seq<Seq<char>>,
    skip: Seq<Seq<char>>,
    items: Seq<ItemV>,
    depth: nat,
    fuel: nat,
) -> Seq<EntryV>
    decreases fuel, 0int, items.len(),
{
    if items.len() == 0 {
        Seq::empty()
    } else {
        let x = items.last();
        rows_items(ls, open, skip, items.drop_last(), depth, fuel) + seq![
            EntryV { path: x.path, name: x.name, is_dir: x.is_dir, depth },
        ] + (if x.is_dir && open.contains(x.path) && fuel > 0 {
            rows(ls, open, skip, x.path, depth + 1, (fuel - 1) as nat)
        } else {
            Seq::empty()
        })
    }
}

/// The rows to draw: the root's entries and those of every opened directory
/// below it. `listings` holds what was read of the root and of the opened
/// directories; one that could not be read has no rows. The walk goes as
/// deep as there are listings, which a tree of real directories never
/// outgrows.
pub open spec fn flatten_spec(
    root: Seq<char>,
    listings: Seq<ListingV>,
    open: Seq<Seq<char>>,
    skip: Seq<Seq<char>>,
) -> Seq<EntryV> {
    rows(listings, open, skip, root, 0, listings.len())
}

fn contains_str(v: &Vec<String>, s: &str) -> (r: bool)
    ensures
        r == texts(v@).contains(s@),
{
    let mut i: usize = 0;
    while i < v.len()
        invariant
            i <= v@.len(),
            forall|j: int| 0 <= j < i ==> (#[trigger] v@[j])@ != s@,
        decreases v@.len() - i,
    {
        if str_eq(v[i].as_str(), s) {
            assert(texts(v@)[i as int] == s@);
            return true;
        }
        i = i + 1;
    }
    assert forall|j: int| 0 <= j < texts(v@).len() implies texts(v@)[j] != s@ by {
        assert(texts(v@)[j] == v@[j]@);
    }
    false
}

fn is_shown(i: &DirItem, skip: &Vec<String>) -> (r: bool)
    ensures
        r == shown(i@, texts(skip@)),
{
    if !i.is_dir {
        return true;
    }
    if contains_str(skip, i.name.as_str()) {
        return false;
    }
    let n = chars_of(i.name.as_str());
    !(n.len() > 0 && n[0] == '.')
}

fn item_less(x: &DirItem, y: &DirItem) -> (r: bool)
    ensures
        r == item_lt(x@, y@),
{
    if x.is_dir != y.is_dir {
        return x.is_dir;
    }
    let a = to_lowercase(x.name.as_str());
    let b = to_lowercase(y.name.as_str());
    lex_less(&chars_of(a.as_str()), &chars_of(b.as_str()))
}

proof fn lemma_insert_pos_at(t: Seq<ItemV>, x: ItemV, i: int)
    requires
        0 <= i <= t.len(),
        forall|j: int| 0 <= j < i ==> !item_lt(x, #[trigger] t[j]),
        i == t.len() || item_lt(x, t[i]),
    ensures
        insert_pos(t, x) == i,
    decreases i,
{
    if i > 0 {
        let u = t.drop_first();
        assert(!item_lt(x, t[0]));
        assert forall|j: int| 0 <= j < i - 1 implies !item_lt(x, #[trigger] u[j]) by {
            assert(u[j] == t[j + 1]);
        }
        if i < t.len() {
            assert(u[i - 1] == t[i]);
        }
        lemma_insert_pos_at(u, x, i - 1);
    }
}

/// Put `x` where the tree's order says it goes.
fn insert_item(out: &mut Vec<DirItem>, x: DirItem)
    ensures
        item_views(final(out)@) == insert_sorted(item_views(old(out)@), x@),
{
    let ghost ov = item_views(out@);
    let mut i: usize = 0;
    while i < out.len() && !item_less(&x, &out[i])
        invariant
            i <= out@.len(),
            ov == item_views(out@),
            forall|j: int| 0 <= j < i ==> !item_lt(x@, #[trigger] ov[j]),
        decreases out@.len() - i,
    {
        assert(ov[i as int] == out@[i as int]@);
        i = i + 1;
    }
    proof {
        if i < out@.len() {
            assert(ov[i as int] == out@[i as int]@);
        }
        lemma_insert_pos_at(ov, x@, i as int);
    }
    let ghost xv = x@;
    out.insert(i, x);
    assert(item_views(out@) =~= ov.take(i as int).push(xv) + ov.skip(i as int));
}

/// A directory's entries in the tree's order: hidden and skipped directories
/// left out, at most [`MAX_ENTRIES`] kept, directories first, then by name
/// ignoring case.
pub fn arrange(items: &Vec<DirItem>, skip: &Vec<String>) -> (r: Vec<DirItem>)
    ensures
        item_views(r@) == arranged(item_views(items@), texts(skip@)),
{
    let ghost all = item_views(items@);
    let ghost sk = texts(skip@);
    let mut keep: Vec<DirItem> = Vec::new();
    let mut i: usize = 0;
    while i < items.len() && keep.len() < MAX_ENTRIES
        invariant
            i <= items@.len(),
            all == item_views(items@),
            sk == texts(skip@),
            keep@.len() <= MAX_ENTRIES,
            item_views(keep@) == kept(all.take(i as int), sk),
        decreases items@.len() - i,
    {
        let x = &items[i];
        assert(x@ == all[i as int]);
        assert(all.take(i + 1).drop_last() =~= all.take(i as int));
        assert(all.take(i + 1).last() == all[i as int]);
        if is_shown(x, skip) {
            let ghost k0 = item_views(keep@);
            keep.push(DirItem { path: x.path.clone(), name: x.name.clone(), is_dir: x.is_dir });
            assert(item_views(keep@) =~= k0.push(x@));
        }
        i = i + 1;
    }
    proof {
        if i == items@.len() {
            assert(all.take(i as int) =~= all);
        }
        lemma_capped_prefix(all, all.take(i as int), sk);
        assert(capped(kept(all.take(i as int), sk)) == kept(all.take(i as int), sk));
    }
    let mut out: Vec<DirItem> = Vec::new();
    let ghost kv = item_views(keep@);
    let mut j: usize = 0;
    while j < keep.len()
        invariant
            j <= keep@.len(),
            kv == item_views(keep@),
            item_views(out@) == sorted(kv.take(j as int)),
        decreases keep@.len() - j,
    {
        let x = DirItem { path: keep[j].path.clone(), name: keep[j].name.clone(), is_dir: keep[j].is_dir };
        assert(x@ == kv[j as int]);
        insert_item(&mut out, x);
        assert(kv.take(j + 1).drop_last() =~= kv.take(j as int));
        j = j + 1;
    }
    assert(kv.take(j as int) =~= kv);
    out
}

/// Keeping at most [`MAX_ENTRIES`] of what is shown of a prefix is the same
/// as of the whole, once the prefix holds that many or is the whole.
proof fn lemma_capped_prefix(all: Seq<ItemV>, pre: Seq<ItemV>, skip: Seq<Seq<char>>)
    requires
        pre.is_prefix_of(all),
        pre.len() == all.len() || kept(pre, skip).len() >= MAX_ENTRIES,
    ensures
        capped(kept(pre, skip)) == capped(kept(all, skip)),
    decreases all.len() - pre.len(),
{
    if pre.len() < all.len() {
        let next = all.take(pre.len() as int + 1);
        assert(next.drop_last() =~= pre);
        lemma_kept_grows(pre, all[pre.len() as int], skip);
        assert(next =~= pre.push(all[pre.len() as int]));
        lemma_capped_prefix(all, next, skip);
    } else {
        assert(pre =~= all);
    }
}

proof fn lemma_kept_grows(pre: Seq<ItemV>, x: ItemV, skip: Seq<Seq<char>>)
    requires
        kept(pre, skip).len() >= MAX_ENTRIES,
    ensures
        kept(pre.push(x), skip).len() >= MAX_ENTRIES,
        capped(kept(pre.push(x), skip)) == capped(kept(pre, skip)),
{
    assert(pre.push(x).drop_last() =~= pre);
    let k = kept(pre, skip);
    if shown(x, skip) {
        assert(k.push(x).take(MAX_ENTRIES as int) =~= k.take(MAX_ENTRIES as int));
    }
}

/// The listing read of `dir`, if any.
fn find_listing<'a>(ls: &'a Vec<Listing>, dir: &str) -> (r: Option<&'a Listing>)
    ensures
        match r {
            Some(l) => listing_of(listing_views(ls@), dir@) == Some(item_views(l.items@)),
            None => listing_of(listing_views(ls@), dir@) is None,
        },
{
    let ghost lv = listing_views(ls@);
    let mut i: usize = 0;
    assert(lv.skip(0) =~= lv);
    while i < ls.len()
        invariant
            i <= ls@.len(),
            lv == listing_views(ls@),
            lv.len() == ls@.len(),
            listing_of(lv, dir@) == listing_of(lv.skip(i as int), dir@),
        decreases ls@.len() - i,
    {
        assert(lv.skip(i as int)[0] == lv[i as int]);
        assert(lv[i as int] == ListingV { dir: ls@[i as int].dir@, items: item_views(ls@[i as int].items@) });
        if str_eq(ls[i].dir.as_str(), dir) {
            return Some(&ls[i]);
        }
        assert(lv.skip(i as int).drop_first() =~= lv.skip(i + 1));
        i = i + 1;
    }
    assert(lv.skip(i as int) =~= Seq::<ListingV>::empty());
    None
}

fn walk(
    ls: &Vec<Listing>,
    open: &Vec<String>,
    skip: &Vec<String>,
    dir: &str,
    depth: usize,
    fuel: usize,
    out: &mut Vec<Entry>,
)
    requires
        depth + fuel <= ls@.len(),
    ensures
        entry_views(final(out)@) == entry_views(old(out)@) + rows(
            listing_views(ls@),
            texts(open@),
            texts(skip@),
            dir@,
            depth as nat,
            fuel as nat,
        ),
    decreases fuel,
{
    let l = match find_listing(ls, dir) {
        Some(l) => l,
        None => {
            assert(entry_views(out@) =~= entry_views(out@) + Seq::<EntryV>::empty());
            return;
        },
    };
    let total = ls.len();
    let items = arrange(&l.items, skip);
    let ghost iv = item_views(items@);
    let ghost lv = listing_views(ls@);
    let ghost base = entry_views(out@);
    let mut i: usize = 0;
    while i < items.len()
        invariant
            depth + fuel <= ls@.len(),
            total == ls@.len(),
            i <= items@.len(),
            iv == item_views(items@),
            lv == listing_views(ls@),
            entry_views(out@) == base + rows_items(
                lv,
                texts(open@),
                texts(skip@),
                iv.take(i as int),
                depth as nat,
                fuel as nat,
            ),
        decreases items@.len() - i,
    {
        let x = &items[i];
        assert(x@ == iv[i as int]);
        assert(iv.take(i + 1).drop_last() =~= iv.take(i as int));
        assert(iv.take(i + 1).last() == iv[i as int]);
        let ghost before = entry_views(out@);
        out.push(Entry { path: x.path.clone(), name: x.name.clone(), is_dir: x.is_dir, depth });
        let ghost pushed = entry_views(out@);
        assert(pushed =~= before.push(EntryV { path: x.path@, name: x.name@, is_dir: x.is_dir, depth: depth as nat }));
        if x.is_dir && contains_str(open, x.path.as_str()) && fuel > 0 {
            walk(ls, open, skip, x.path.as_str(), depth + 1, fuel - 1, out);
        }
        proof {
            let t = texts(open@);
            let s = texts(skip@);
            let tail = if x@.is_dir && t.contains(x@.path) && fuel > 0 {
                rows(lv, t, s, x@.path, (depth + 1) as nat, (fuel - 1) as nat)
            } else {
                Seq::empty()
            };
            assert(entry_views(out@) =~= pushed + tail);
            assert(rows_items(lv, t, s, iv.take(i + 1), depth as nat, fuel as nat) == rows_items(
                lv,
                t,
                s,
                iv.take(i as int),
                depth as nat,
                fuel as nat,
            ) + seq![EntryV { path: x@.path, name: x@.name, is_dir: x@.is_dir, depth: depth as nat }]
                + tail);
        }
        i = i + 1;
    }
    assert(iv.take(i as int) =~= iv);
}

/// The rows to draw, from what was read of the root and the opened directories.
pub fn flatten(root: &str, listings: &Vec<Listing>, open: &Vec<String>, skip: &Vec<String>) -> (r: Vec<Entry>)
    ensures
        entry_views(r@) == flatten_spec(root@, listing_views(listings@), texts(open@), texts(skip@)),
{
    let mut out: Vec<Entry> = Vec::new();
    walk(listings, open, skip, root, 0, listings.len(), &mut out);
    assert(entry_views(out@) =~= Seq::<EntryV>::empty() + entry_views(out@));
    out
}

/// The note at the end of a file that was cut: how much is shown of how much.
pub open spec fn cut_note(total: nat) -> Seq<char> {
    "\n\u{2026}[showing the first "@ + nat_text(MAX_VIEW_BYTES as nat) + " of "@ + nat_text(total)
        + " bytes]"@
}

/// A file's bytes as the viewer shows them: refused as binary where a NUL
/// is among the first [`MAX_VIEW_BYTES`], else those bytes decoded (invalid
/// ones replaced), with a note when the file is longer.
pub open spec fn view_text_spec(data: Seq<u8>) -> Result<Seq<char>, Seq<char>> {
    let head = if data.len() > MAX_VIEW_BYTES {
        data.take(MAX_VIEW_BYTES as int)
    } else {
        data
    };
    if head.contains(0u8) {
        Err(BINARY@)
    } else if data.len() > MAX_VIEW_BYTES {
        Ok(lossy(head) + cut_note(data.len()))
    } else {
        Ok(lossy(head))
    }
}

pub fn view_text(data: &[u8]) -> (r: Result<String, String>)
    ensures
        match (r, view_text_spec(data@)) {
            (Ok(t), Ok(u)) => t@ == u,
            (Err(t), Err(u)) => t@ == u,
            _ => false,
        },
{
    let total = data.len();
    let n = if total > MAX_VIEW_BYTES {
        MAX_VIEW_BYTES
    } else {
        total
    };
    let mut i: usize = 0;
    while i < n
        invariant
            i <= n,
            n <= data@.len(),
            n == (if data@.len() > MAX_VIEW_BYTES { MAX_VIEW_BYTES as int } else { data@.len() as int }),
            forall|j: int| 0 <= j < i ==> data@[j] != 0u8,
        decreases n - i,
    {
        if data[i] == 0 {
            proof {
                let head = if data@.len() > MAX_VIEW_BYTES {
                    data@.take(MAX_VIEW_BYTES as int)
                } else {
                    data@
                };
                assert(head[i as int] == 0u8);
                assert(head.contains(0u8));
            }
            return Err(BINARY.to_owned());
        }
        i = i + 1;
    }
    let head = slice_bytes(data, n);
    proof {
        let hv = if data@.len() > MAX_VIEW_BYTES {
            data@.take(MAX_VIEW_BYTES as int)
        } else {
            data@
        };
        assert(head@ =~= hv);
        assert(!hv.contains(0u8)) by {
            if hv.contains(0u8) {
                let w = choose|w: int| 0 <= w < hv.len() && hv[w] == 0u8;
                assert(data@[w] == 0u8);
            }
        }
    }
    let text = crate::text::utf8_lossy(head.as_slice());
    if total > MAX_VIEW_BYTES {
        let mut v = chars_of(text.as_str());
        push_str(&mut v, "\n\u{2026}[showing the first ");
        push_u64(&mut v, MAX_VIEW_BYTES as u64);
        push_str(&mut v, " of ");
        push_u64(&mut v, total as u64);
        push_str(&mut v, " bytes]");
        Ok(string_of(&v))
    } else {
        Ok(text)
    }
}

fn slice_bytes(data: &[u8], n: usize) -> (r: Vec<u8>)
    requires
        n <= data@.len(),
    ensures
        r@ == data@.take(n as int),
{
    let mut out: Vec<u8> = Vec::new();
    let mut i: usize = 0;
    while i < n
        invariant
            i <= n,
            n <= data@.len(),
            out@ == data@.take(i as int),
        decreases n - i,
    {
        out.push(data[i]);
        assert(out@ =~= data@.take(i + 1));
        i = i + 1;
    }
    out
}

// ---------------------------------------------------------------------------
// Laws
// ---------------------------------------------------------------------------

proof fn lemma_item_irreflexive(x: ItemV)
    ensures
        !item_lt(x, x),
{
    crate::apidocs::lemma_lex_irreflexive(lowercase(x.name));
}

proof fn lemma_item_transitive(x: ItemV, y: ItemV, z: ItemV)
    requires
        item_lt(x, y),
        item_lt(y, z),
    ensures
        item_lt(x, z),
{
    if x.is_dir == y.is_dir && y.is_dir == z.is_dir {
        crate::apidocs::lemma_lex_transitive(lowercase(x.name), lowercase(y.name), lowercase(z.name));
    }
}

/// Nothing in `t` is listed before an entry ahead of it.
pub open spec fn in_tree_order(t: Seq<ItemV>) -> bool {
    forall|i: int, j: int| 0 <= i < j < t.len() ==> !item_lt(#[trigger] t[j], #[trigger] t[i])
}

proof fn lemma_insert_pos_bounds(t: Seq<ItemV>, x: ItemV)
    ensures
        0 <= insert_pos(t, x) <= t.len(),
        forall|j: int| 0 <= j < insert_pos(t, x) ==> !item_lt(x, #[trigger] t[j]),
        insert_pos(t, x) == t.len() || item_lt(x, t[insert_pos(t, x)]),
    decreases t.len(),
{
    if t.len() > 0 && !item_lt(x, t[0]) {
        let u = t.drop_first();
        lemma_insert_pos_bounds(u, x);
        assert forall|j: int| 0 <= j < insert_pos(t, x) implies !item_lt(x, #[trigger] t[j]) by {
            if j > 0 {
                assert(t[j] == u[j - 1]);
            }
        }
        if insert_pos(t, x) < t.len() {
            assert(t[insert_pos(t, x)] == u[insert_pos(u, x)]);
        }
    }
}

proof fn lemma_insert_in_order(t: Seq<ItemV>, x: ItemV)
    requires
        in_tree_order(t),
    ensures
        in_tree_order(insert_sorted(t, x)),
        insert_sorted(t, x).to_multiset() == t.to_multiset().insert(x),
{
    lemma_insert_pos_bounds(t, x);
    let k = insert_pos(t, x);
    let r = insert_sorted(t, x);
    assert forall|j: int| 0 <= j < r.len() implies #[trigger] r[j] == if j < k {
        t[j]
    } else if j == k {
        x
    } else {
        t[j - 1]
    } by {}
    assert forall|i: int, j: int| 0 <= i < j < r.len() implies !item_lt(#[trigger] r[j], #[trigger] r[i]) by {
        if i < k && j == k {
        } else if i == k && j > k {
            if item_lt(t[j - 1], x) {
                if j - 1 == k {
                    lemma_item_transitive(t[k], x, t[k]);
                    lemma_item_irreflexive(t[k]);
                } else {
                    lemma_item_transitive(t[j - 1], x, t[k]);
                }
            }
        } else if i < k && j > k {
            assert(!item_lt(t[j - 1], t[i]));
        } else if j < k {
            assert(!item_lt(t[j], t[i]));
        } else {
            assert(!item_lt(t[j - 1], t[i - 1]));
        }
    }
    broadcast use vstd::seq_lib::lemma_multiset_commutative;
    broadcast use vstd::seq_lib::group_to_multiset_ensures;
    assert(t.take(k) + t.skip(k) =~= t);
    assert(t.take(k).push(x).to_multiset() =~= t.take(k).to_multiset().insert(x));
    assert((t.take(k) + t.skip(k)).to_multiset() =~= t.take(k).to_multiset().add(t.skip(k).to_multiset()));
    assert(r.to_multiset() =~= t.take(k).push(x).to_multiset().add(t.skip(k).to_multiset()));
    assert(r.to_multiset() =~= t.to_multiset().insert(x));
}

proof fn lemma_sorted_in_order(s: Seq<ItemV>)
    ensures
        in_tree_order(sorted(s)),
        sorted(s).to_multiset() == s.to_multiset(),
    decreases s.len(),
{
    broadcast use vstd::seq_lib::group_to_multiset_ensures;
    if s.len() > 0 {
        lemma_sorted_in_order(s.drop_last());
        lemma_insert_in_order(sorted(s.drop_last()), s.last());
        assert(s.drop_last().push(s.last()) =~= s);
        assert(s.drop_last().push(s.last()).to_multiset() =~= s.drop_last().to_multiset().insert(s.last()));
    } else {
        assert(sorted(s) =~= s);
    }
}

proof fn lemma_kept_shown(s: Seq<ItemV>, skip: Seq<Seq<char>>)
    ensures
        forall|i: int| 0 <= i < kept(s, skip).len() ==> shown(#[trigger] kept(s, skip)[i], skip),
        kept(s, skip).len() <= s.len(),
    decreases s.len(),
{
    if s.len() > 0 {
        lemma_kept_shown(s.drop_last(), skip);
    }
}

/// A directory lists at most [`MAX_ENTRIES`] entries, none of them a hidden
/// or skipped directory, directories before files and each kind in name
/// order.
pub proof fn a_directory_lists_in_tree_order(s: Seq<ItemV>, skip: Seq<Seq<char>>)
    ensures
        arranged(s, skip).len() <= MAX_ENTRIES,
        in_tree_order(arranged(s, skip)),
        forall|i: int| 0 <= i < arranged(s, skip).len() ==> shown(#[trigger] arranged(s, skip)[i], skip),
        forall|i: int, j: int|
            0 <= i < j < arranged(s, skip).len() && (#[trigger] arranged(s, skip)[j]).is_dir ==> (
            #[trigger] arranged(s, skip)[i]).is_dir,
{
    broadcast use vstd::seq_lib::group_to_multiset_ensures;
    let k = kept(s, skip);
    let c = capped(k);
    lemma_kept_shown(s, skip);
    lemma_sorted_in_order(c);
    let r = sorted(c);
    assert(r.len() == c.len()) by {
        assert(r.to_multiset().len() == c.to_multiset().len());
    }
    assert forall|i: int| 0 <= i < r.len() implies shown(#[trigger] r[i], skip) by {
        assert(r.to_multiset().count(r[i]) > 0);
        assert(c.contains(r[i]));
        let w = choose|w: int| 0 <= w < c.len() && c[w] == r[i];
        assert(c[w] == k[w]);
    }
    assert forall|i: int, j: int| 0 <= i < j < r.len() && (#[trigger] r[j]).is_dir implies (#[trigger] r[i]).is_dir by {
        if !r[i].is_dir {
            assert(item_lt(r[j], r[i]));
        }
    }
}

/// The row an entry gets at `depth`.
pub open spec fn row_of(x: ItemV, depth: nat) -> EntryV {
    EntryV { path: x.path, name: x.name, is_dir: x.is_dir, depth }
}

/// The rows under an entry: those of its own directory, one level deeper,
/// when it is an opened directory; none otherwise.
pub open spec fn rows_under(
    ls: Seq<ListingV>,
    open: Seq<Seq<char>>,
    skip: Seq<Seq<char>>,
    x: ItemV,
    depth: nat,
    fuel: nat,
) -> Seq<EntryV> {
    if x.is_dir && open.contains(x.path) && fuel > 0 {
        rows(ls, open, skip, x.path, depth + 1, (fuel - 1) as nat)
    } else {
        Seq::empty()
    }
}

proof fn lemma_rows_items_append(
    ls: Seq<ListingV>,
    open: Seq<Seq<char>>,
    skip: Seq<Seq<char>>,
    a: Seq<ItemV>,
    b: Seq<ItemV>,
    depth: nat,
    fuel: nat,
)
    ensures
        rows_items(ls, open, skip, a + b, depth, fuel) == rows_items(ls, open, skip, a, depth, fuel)
            + rows_items(ls, open, skip, b, depth, fuel),
    decreases b.len(),
{
    if b.len() == 0 {
        assert(a + b =~= a);
        assert(rows_items(ls, open, skip, a, depth, fuel) + Seq::<EntryV>::empty() =~= rows_items(
            ls,
            open,
            skip,
            a,
            depth,
            fuel,
        ));
    } else {
        lemma_rows_items_append(ls, open, skip, a, b.drop_last(), depth, fuel);
        assert((a + b).drop_last() =~= a + b.drop_last());
        assert((a + b).last() == b.last());
        let x = b.last();
        let tail = seq![row_of(x, depth)] + rows_under(ls, open, skip, x, depth, fuel);
        assert(rows_items(ls, open, skip, a + b, depth, fuel) =~= rows_items(ls, open, skip, a + b.drop_last(), depth, fuel) + tail);
        assert(rows_items(ls, open, skip, b, depth, fuel) =~= rows_items(ls, open, skip, b.drop_last(), depth, fuel) + tail);
    }
}

/// The tree is drawn depth first: within a directory's rows, each entry has
/// its row at the directory's depth, followed at once by the rows of its own
/// directory one level deeper when it is an opened one, then by the rows of
/// the entries after it. The root's rows are those of its arranged listing
/// at depth 0.
pub proof fn an_open_directory_is_followed_by_its_own_rows(
    ls: Seq<ListingV>,
    open: Seq<Seq<char>>,
    skip: Seq<Seq<char>>,
    items: Seq<ItemV>,
    depth: nat,
    fuel: nat,
    k: int,
)
    requires
        0 <= k < items.len(),
    ensures
        rows_items(ls, open, skip, items, depth, fuel) == rows_items(ls, open, skip, items.take(k), depth, fuel)
            + seq![row_of(items[k], depth)] + rows_under(ls, open, skip, items[k], depth, fuel)
            + rows_items(ls, open, skip, items.skip(k + 1), depth, fuel),
{
    let a = items.take(k);
    let one = seq![items[k]];
    let b = items.skip(k + 1);
    assert(items =~= a + one + b);
    lemma_rows_items_append(ls, open, skip, a + one, b, depth, fuel);
    lemma_rows_items_append(ls, open, skip, a, one, depth, fuel);
    assert(one.drop_last() =~= Seq::<ItemV>::empty());
    assert(one.last() == items[k]);
    assert(rows_items(ls, open, skip, one.drop_last(), depth, fuel) =~= Seq::<EntryV>::empty());
    assert(rows_items(ls, open, skip, one, depth, fuel) =~= seq![row_of(items[k], depth)] + rows_under(
        ls,
        open,
        skip,
        items[k],
        depth,
        fuel,
    ));
}

proof fn lemma_kept_members(s: Seq<ItemV>, skip: Seq<Seq<char>>, x: ItemV)
    ensures
        kept(s, skip).contains(x) == (s.contains(x) && (!x.is_dir || (!skip.contains(x.name) && !(x.name.len()
            > 0 && x.name[0] == '.')))),
    decreases s.len(),
{
    if s.len() > 0 {
        let d = s.drop_last();
        lemma_kept_members(d, skip, x);
        let kd = kept(d, skip);
        assert(s =~= d.push(s.last()));
        if s.contains(x) && x != s.last() {
            let w = choose|w: int| 0 <= w < s.len() && s[w] == x;
            assert(d[w] == x);
        }
        if d.contains(x) {
            let w = choose|w: int| 0 <= w < d.len() && d[w] == x;
            assert(s[w] == x);
        }
        assert(s[s.len() - 1] == s.last());
        if shown(s.last(), skip) {
            let k = kd.push(s.last());
            assert(k[kd.len() as int] == s.last());
            if k.contains(x) && x != s.last() {
                let w = choose|w: int| 0 <= w < k.len() && k[w] == x;
                assert(kd[w] == x);
            }
            if kd.contains(x) {
                let w = choose|w: int| 0 <= w < kd.len() && kd[w] == x;
                assert(k[w] == x);
            }
        }
    }
}

/// A directory's listing shows every file it holds, and every directory but
/// hidden ones (a name starting with `.`) and those named in `skip`; it shows
/// nothing that was not read. While the listing stays within
/// [`MAX_ENTRIES`], the arranged rows hold all of these too.
pub proof fn every_file_is_listed(s: Seq<ItemV>, skip: Seq<Seq<char>>, x: ItemV)
    ensures
        kept(s, skip).contains(x) == (s.contains(x) && (!x.is_dir || (!skip.contains(x.name) && !(x.name.len()
            > 0 && x.name[0] == '.')))),
        s.contains(x) && !x.is_dir ==> kept(s, skip).contains(x),
        kept(s, skip).len() <= MAX_ENTRIES ==> (arranged(s, skip).contains(x) == kept(s, skip).contains(x)),
{
    broadcast use vstd::seq_lib::group_to_multiset_ensures;
    lemma_kept_members(s, skip, x);
    let k = kept(s, skip);
    if k.len() <= MAX_ENTRIES {
        lemma_sorted_in_order(k);
        assert(capped(k) == k);
        assert(arranged(s, skip).to_multiset() == k.to_multiset());
        assert(arranged(s, skip).contains(x) == (arranged(s, skip).to_multiset().count(x) > 0));
        assert(k.contains(x) == (k.to_multiset().count(x) > 0));
    }
}

} // verus!
