//! Paths of index entries on systems with one file tree: the names along the parent chain, in
//! their own case, below the root of the volume.
use vstd::prelude::*;
use crate::text;

verus! {

/// A directory of the index: where its name stands in the name buffer, and its parent.
#[derive(Debug, Clone, Copy, PartialEq, Eq, Structural)]
pub struct DirNode {
    pub name_offset: u32,
    pub name_len: u32,
    pub parent_idx: u32,
}

/// An entry as far as its path is concerned.
#[derive(Debug)]
pub enum PathEntry {
    /// A directory; `at` is its place among the directories where it has one.
    Dir { at: Option<u32> },
    /// A file; `name` is missing where the name buffer cannot be read.
    File { name: Option<String>, dir_idx: u32 },
}

pub enum PathEntryView {
    Dir { at: Option<u32> },
    File { name: Option<Seq<char>>, dir_idx: u32 },
}

impl View for PathEntry {
    type V = PathEntryView;

    open spec fn view(&self) -> PathEntryView {
        match *self {
            PathEntry::Dir { at } => PathEntryView::Dir { at },
            PathEntry::File { name, dir_idx } => PathEntryView::File {
                name: match name {
                    Some(s) => Some(s@),
                    None => None,
                },
                dir_idx,
            },
        }
    }
}

/// The bytes of a name without its closing zero.
pub open spec fn without_zero(b: Seq<u8>) -> Seq<u8> {
    if b.len() > 0 && b.last() == 0 {
        b.drop_last()
    } else {
        b
    }
}

/// The name of a directory, where it lies inside the buffer and is UTF-8.
pub open spec fn dir_name(buf: Seq<u8>, d: DirNode) -> Option<Seq<char>> {
    if d.name_offset + d.name_len > buf.len() {
        None
    } else {
        let raw = without_zero(
            buf.subrange(d.name_offset as int, d.name_offset + d.name_len),
        );
        if vstd::utf8::valid_utf8(raw) {
            Some(vstd::utf8::decode_utf8(raw))
        } else {
            None
        }
    }
}

pub fn unix_dir_name(buf: &Vec<u8>, d: &DirNode) -> (r: Option<String>)
    ensures
        match r {
            Some(s) => dir_name(buf@, *d) == Some(s@),
            None => dir_name(buf@, *d) is None,
        },
{
    let n: usize = buf.len();
    let start: u64 = d.name_offset as u64;
    let end: u64 = start + d.name_len as u64;
    if end > n as u64 {
        return None;
    }
    let mut raw: Vec<u8> = Vec::new();
    let mut i: usize = start as usize;
    while i < end as usize
        invariant
            n == buf@.len(),
            start <= i <= end <= n,
            raw@ == buf@.subrange(start as int, i as int),
        decreases end - i,
    {
        raw.push(buf[i]);
        proof {
            assert(raw@ =~= buf@.subrange(start as int, i + 1));
        }
        i += 1;
    }
    let m: usize = raw.len();
    if m > 0 && raw[m - 1] == 0 {
        let _ = raw.pop();
    }
    text::utf8_text(&raw)
}

/// Where the way up from a directory leads.
#[derive(Debug, Clone, Copy, PartialEq, Eq, Structural)]
pub enum WayUp {
    /// To a directory below the root.
    Root,
    /// To a directory that is not there.
    Missing,
    /// To no end within the steps that were made.
    Endless,
}

/// Where the way up from the directory `at` leads within `steps` steps.
pub open spec fn way_up(dirs: Seq<DirNode>, at: int, steps: nat) -> WayUp
    decreases steps,
{
    if at < 0 || at >= dirs.len() {
        WayUp::Missing
    } else if steps == 0 {
        WayUp::Endless
    } else if dirs[at].parent_idx == 0 {
        WayUp::Root
    } else {
        way_up(dirs, dirs[at].parent_idx as int, (steps - 1) as nat)
    }
}

/// The name of a directory in a path, where it has one.
pub open spec fn own_name(dirs: Seq<DirNode>, buf: Seq<u8>, at: int) -> Seq<Seq<char>> {
    match dir_name(buf, dirs[at]) {
        Some(n) if n.len() > 0 => seq![n],
        _ => Seq::empty(),
    }
}

/// The names on the way up from the directory `at`, nameless directories left out.
pub open spec fn names_up(dirs: Seq<DirNode>, buf: Seq<u8>, at: int, steps: nat) -> Seq<Seq<char>>
    decreases steps,
{
    if at < 0 || at >= dirs.len() || steps == 0 {
        Seq::empty()
    } else if dirs[at].parent_idx == 0 {
        own_name(dirs, buf, at)
    } else {
        own_name(dirs, buf, at) + names_up(
            dirs,
            buf,
            dirs[at].parent_idx as int,
            (steps - 1) as nat,
        )
    }
}

/// Adds the names on the way up from the directory `at`, and says where it led.
fn push_names_up(out: &mut Vec<String>, dirs: &Vec<DirNode>, buf: &Vec<u8>, at: u32, steps: usize)
    -> (r: WayUp)
    ensures
        r == way_up(dirs@, at as int, steps as nat),
        text::texts(final(out)@) == text::texts(old(out)@) + names_up(
            dirs@,
            buf@,
            at as int,
            steps as nat,
        ),
{
    let ghost all = text::texts(out@) + names_up(dirs@, buf@, at as int, steps as nat);
    let mut cur: u32 = at;
    let mut left: usize = steps;
    while (cur as usize) < dirs.len() && left > 0
        invariant
            all == text::texts(old(out)@) + names_up(dirs@, buf@, at as int, steps as nat),
            way_up(dirs@, at as int, steps as nat) == way_up(dirs@, cur as int, left as nat),
            text::texts(out@) + names_up(dirs@, buf@, cur as int, left as nat) == all,
        decreases left,
    {
        let d = dirs[cur as usize];
        let ghost before = text::texts(out@);
        let ghost own = own_name(dirs@, buf@, cur as int);
        let ghost rest = names_up(dirs@, buf@, d.parent_idx as int, (left - 1) as nat);
        match unix_dir_name(buf, &d) {
            Some(n) => {
                if !n.as_str().is_empty() {
                    out.push(n);
                }
            },
            None => {},
        }
        proof {
            assert(text::texts(out@) =~= before + own);
            assert((before + own) + rest =~= before + (own + rest));
        }
        if d.parent_idx == 0 {
            return WayUp::Root;
        }
        cur = d.parent_idx;
        left -= 1;
    }
    assert(text::texts(out@) + Seq::<Seq<char>>::empty() =~= text::texts(out@));
    if (cur as usize) >= dirs.len() {
        WayUp::Missing
    } else {
        WayUp::Endless
    }
}

/// The path of `rel` below the root prefix of a volume.
pub open spec fn under_prefix(prefix: Seq<char>, rel: Seq<char>) -> Seq<char> {
    let root = text::trimmed_end(prefix, '/');
    if rel.len() == 0 {
        if root.len() == 0 {
            "/"@
        } else {
            root
        }
    } else {
        root + "/"@ + rel
    }
}

/// The path of an entry; `prefix` is missing where no volume covers the entry. No way up that ends
/// is longer than the number of directories. A directory needs every directory on its way; a file
/// goes without those that are missing.
pub open spec fn entry_path(
    prefix: Option<Seq<char>>,
    e: PathEntryView,
    dirs: Seq<DirNode>,
    buf: Seq<u8>,
) -> Option<Seq<char>> {
    match prefix {
        None => None,
        Some(p) => match e {
            PathEntryView::Dir { at: Some(at) } if way_up(dirs, at as int, dirs.len())
                == WayUp::Root => Some(
                under_prefix(
                    p,
                    text::joined(names_up(dirs, buf, at as int, dirs.len()).reverse(), "/"@),
                ),
            ),
            PathEntryView::File { name: Some(n), dir_idx } if way_up(
                dirs,
                dir_idx as int,
                dirs.len(),
            ) != WayUp::Endless => Some(
                under_prefix(
                    p,
                    text::joined(
                        (seq![n] + names_up(dirs, buf, dir_idx as int, dirs.len())).reverse(),
                        "/"@,
                    ),
                ),
            ),
            _ => None,
        },
    }
}

fn reversed(v: Vec<String>) -> (r: Vec<String>)
    ensures
        text::texts(r@) == text::texts(v@).reverse(),
{
    let mut rest = v;
    let mut out: Vec<String> = Vec::new();
    let ghost all = text::texts(v@);
    while rest.len() > 0
        invariant
            all == text::texts(v@),
            rest@ == v@.take(rest@.len() as int),
            rest@.len() <= v@.len(),
            text::texts(out@) == all.reverse().take(v@.len() - rest@.len()),
        decreases rest.len(),
    {
        let ghost n = rest@.len();
        let ghost before = text::texts(out@);
        let ghost tail = rest@.last();
        let last = rest.pop();
        match last {
            Some(s) => {
                out.push(s);
                proof {
                    assert(s == tail);
                    assert(tail == v@[n - 1]);
                    assert(all.reverse()[v@.len() - n] == all[n - 1]);
                    assert(text::texts(out@) =~= before.push(s@));
                    assert(text::texts(out@) =~= all.reverse().take(v@.len() - rest@.len()));
                    assert(rest@ =~= v@.take(rest@.len() as int));
                }
            },
            None => {},
        }
    }
    assert(all.reverse().take(v@.len() as int) =~= all.reverse());
    out
}

/// The path of an index entry in the file system, or nothing where a part of it is unknown.
pub fn unix_entry_fs_path(
    prefix: Option<&str>,
    e: &PathEntry,
    dirs: &Vec<DirNode>,
    buf: &Vec<u8>,
) -> (r: Option<String>)
    ensures
        (match r {
            Some(s) => Some(s@),
            None => None,
        }) == entry_path(
            match prefix {
                Some(p) => Some(p@),
                None => None,
            },
            e@,
            dirs@,
            buf@,
        ),
{
    let p = match prefix {
        Some(p) => p,
        None => {
            return None;
        },
    };
    let mut segs: Vec<String> = Vec::new();
    let ghost mut want: Seq<Seq<char>> = Seq::empty();
    match e {
        PathEntry::Dir { at } => match at {
            Some(at) => {
                let end = push_names_up(&mut segs, dirs, buf, *at, dirs.len());
                if end != WayUp::Root {
                    return None;
                }
                proof {
                    want = names_up(dirs@, buf@, *at as int, dirs@.len());
                    assert(text::texts(segs@) =~= want);
                }
            },
            None => {
                return None;
            },
        },
        PathEntry::File { name, dir_idx } => match name {
            Some(n) => {
                segs.push(text::copied(n));
                proof {
                    assert(text::texts(segs@) =~= seq![n@]);
                }
                let end = push_names_up(&mut segs, dirs, buf, *dir_idx, dirs.len());
                if end == WayUp::Endless {
                    return None;
                }
                proof {
                    want = seq![n@] + names_up(dirs@, buf@, *dir_idx as int, dirs@.len());
                }
            },
            None => {
                return None;
            },
        },
    }
    let segs = reversed(segs);
    let rel = text::join(&segs, "/");
    assert(rel@ == text::joined(want.reverse(), "/"@));
    let mut root = text::trim_end_of(p, '/');
    if rel.as_str().is_empty() {
        if root.as_str().is_empty() {
            return Some(text::copied("/"));
        }
        return Some(root);
    }
    root.push_str("/");
    root.push_str(&rel);
    Some(root)
}

/// A file lies directly in its directory: its path is the path of the directory, a slash and its
/// name (the root directory itself adds no second slash).
pub proof fn law_file_in_directory(
    prefix: Seq<char>,
    name: Seq<char>,
    dir_idx: u32,
    dirs: Seq<DirNode>,
    buf: Seq<u8>,
)
    requires
        name.len() > 0,
        way_up(dirs, dir_idx as int, dirs.len()) == WayUp::Root,
    ensures
        ({
            let file = entry_path(
                Some(prefix),
                PathEntryView::File { name: Some(name), dir_idx },
                dirs,
                buf,
            );
            let dir = entry_path(
                Some(prefix),
                PathEntryView::Dir { at: Some(dir_idx) },
                dirs,
                buf,
            );
            &&& dir is Some
            &&& file == Some(
                if dir->0 == "/"@ {
                    "/"@ + name
                } else {
                    dir->0 + "/"@ + name
                },
            )
        }),
{
    reveal_strlit("/");
    let up = names_up(dirs, buf, dir_idx as int, dirs.len());
    let down = up.reverse();
    let all = (seq![name] + up).reverse();
    assert(all =~= down.push(name));
    assert(all.drop_last() =~= down);
    lemma_names_nonempty(dirs, buf, dir_idx as int, dirs.len());
    let root = text::trimmed_end(prefix, '/');
    let rel_dir = text::joined(down, "/"@);
    if down.len() > 0 {
        assert forall|k: int| 0 <= k < down.len() implies (#[trigger] down[k]).len() > 0 by {
            assert(down[k] == up[up.len() - 1 - k]);
        }
        lemma_joined_nonempty(down);
        assert(text::joined(all, "/"@) == rel_dir + "/"@ + name);
        assert(root + "/"@ + (rel_dir + "/"@ + name) =~= (root + "/"@ + rel_dir) + "/"@ + name);
        assert((root + "/"@ + rel_dir).len() > 1);
    } else {
        assert(all =~= seq![name]);
        if root.len() > 0 {
            lemma_root_is_no_slash(prefix);
        } else {
            assert(root =~= Seq::<char>::empty());
            assert(root + "/"@ + name =~= "/"@ + name);
        }
    }
}

proof fn lemma_names_nonempty(dirs: Seq<DirNode>, buf: Seq<u8>, at: int, steps: nat)
    ensures
        forall|k: int|
            0 <= k < names_up(dirs, buf, at, steps).len() ==> (#[trigger] names_up(
                dirs,
                buf,
                at,
                steps,
            )[k]).len() > 0,
    decreases steps,
{
    if 0 <= at < dirs.len() && steps > 0 && dirs[at].parent_idx != 0 {
        let p = dirs[at].parent_idx as int;
        lemma_names_nonempty(dirs, buf, p, (steps - 1) as nat);
        let own = own_name(dirs, buf, at);
        let up = names_up(dirs, buf, p, (steps - 1) as nat);
        let all = names_up(dirs, buf, at, steps);
        assert(all == own + up);
        assert forall|k: int| 0 <= k < all.len() implies (#[trigger] all[k]).len() > 0 by {
            if k >= own.len() {
                assert(up[k - own.len()].len() > 0);
            }
        }
    }
}

// ---- ways that end ------------------------------------------------------------------------

/// A way that ends is not changed by more steps.
proof fn lemma_more_steps(dirs: Seq<DirNode>, buf: Seq<u8>, at: int, n: nat, m: nat)
    requires
        n <= m,
        way_up(dirs, at, n) != WayUp::Endless,
    ensures
        way_up(dirs, at, m) == way_up(dirs, at, n),
        names_up(dirs, buf, at, m) == names_up(dirs, buf, at, n),
    decreases n,
{
    if 0 <= at < dirs.len() && dirs[at].parent_idx != 0 {
        lemma_more_steps(
            dirs,
            buf,
            dirs[at].parent_idx as int,
            (n - 1) as nat,
            (m - 1) as nat,
        );
    }
}

/// The directories on a way up.
spec fn places(dirs: Seq<DirNode>, at: int, steps: nat) -> Seq<int>
    decreases steps,
{
    if at < 0 || at >= dirs.len() || steps == 0 {
        Seq::empty()
    } else if dirs[at].parent_idx == 0 {
        seq![at]
    } else {
        seq![at] + places(dirs, dirs[at].parent_idx as int, (steps - 1) as nat)
    }
}

/// A way that ends after exactly `n` directories passes through `n` of them, and from each of them
/// it takes the rest to the end.
proof fn lemma_places(dirs: Seq<DirNode>, at: int, n: nat)
    requires
        way_up(dirs, at, n) != WayUp::Endless,
        n > 0 ==> way_up(dirs, at, (n - 1) as nat) == WayUp::Endless,
    ensures
        places(dirs, at, n).len() == n,
        forall|i: int|
            0 <= i < n ==> {
                let p = #[trigger] places(dirs, at, n)[i];
                &&& 0 <= p < dirs.len()
                &&& way_up(dirs, p, (n - i) as nat) != WayUp::Endless
                &&& way_up(dirs, p, (n - i - 1) as nat) == WayUp::Endless
            },
    decreases n,
{
    if n > 0 {
        let all = places(dirs, at, n);
        if dirs[at].parent_idx != 0 {
            let p = dirs[at].parent_idx as int;
            let rest = places(dirs, p, (n - 1) as nat);
            lemma_places(dirs, p, (n - 1) as nat);
            assert(all == seq![at] + rest);
            assert forall|i: int| 0 <= i < n implies {
                let q = #[trigger] all[i];
                &&& 0 <= q < dirs.len()
                &&& way_up(dirs, q, (n - i) as nat) != WayUp::Endless
                &&& way_up(dirs, q, (n - i - 1) as nat) == WayUp::Endless
            } by {
                if i > 0 {
                    assert(all[i] == rest[i - 1]);
                }
            }
        }
    }
}

proof fn lemma_exact_way(dirs: Seq<DirNode>, buf: Seq<u8>, at: int, n: nat)
    requires
        way_up(dirs, at, n) != WayUp::Endless,
        n > 0 ==> way_up(dirs, at, (n - 1) as nat) == WayUp::Endless,
    ensures
        n <= dirs.len(),
{
    let all = places(dirs, at, n);
    lemma_places(dirs, at, n);
    assert forall|i: int, j: int| 0 <= i < all.len() && 0 <= j < all.len() && i != j implies all[i]
        != all[j] by {
        let (a, b) = if i < j {
            (i, j)
        } else {
            (j, i)
        };
        if all[a] == all[b] {
            lemma_more_steps(dirs, buf, all[b], (n - b) as nat, (n - a - 1) as nat);
        }
    }
    let range = vstd::set_lib::set_int_range(0, dirs.len() as int);
    vstd::set_lib::lemma_int_range(0, dirs.len() as int);
    assert forall|p: int| all.to_set().contains(p) implies range.contains(p) by {
        let i = choose|i: int| 0 <= i < all.len() && all[i] == p;
        assert(0 <= all[i] < dirs.len());
    }
    all.unique_seq_to_set();
    vstd::set_lib::lemma_len_subset(all.to_set(), range);
}

/// Every way up that ends at all is walked to its end, however the directories stand in the index:
/// as many steps as there are directories are enough.
pub proof fn law_every_ending_way_is_walked(
    dirs: Seq<DirNode>,
    buf: Seq<u8>,
    at: int,
    steps: nat,
)
    requires
        way_up(dirs, at, steps) != WayUp::Endless,
    ensures
        way_up(dirs, at, dirs.len()) == way_up(dirs, at, steps),
        names_up(dirs, buf, at, dirs.len()) == names_up(dirs, buf, at, steps),
    decreases steps,
{
    if steps <= dirs.len() {
        lemma_more_steps(dirs, buf, at, steps, dirs.len());
    } else if way_up(dirs, at, (steps - 1) as nat) != WayUp::Endless {
        lemma_more_steps(dirs, buf, at, (steps - 1) as nat, steps);
        law_every_ending_way_is_walked(dirs, buf, at, (steps - 1) as nat);
    } else {
        lemma_exact_way(dirs, buf, at, steps);
    }
}

proof fn lemma_joined_nonempty(v: Seq<Seq<char>>)
    requires
        v.len() > 0,
        forall|k: int| 0 <= k < v.len() ==> (#[trigger] v[k]).len() > 0,
    ensures
        text::joined(v, "/"@).len() > 0,
{
    assert(v[v.len() - 1].len() > 0);
}

proof fn lemma_root_is_no_slash(prefix: Seq<char>)
    requires
        text::trimmed_end(prefix, '/').len() > 0,
    ensures
        text::trimmed_end(prefix, '/') != "/"@,
{
    reveal_strlit("/");
    lemma_last_differs(prefix);
}

proof fn lemma_last_differs(s: Seq<char>)
    ensures
        text::trimmed_end(s, '/').len() > 0 ==> text::trimmed_end(s, '/').last() != '/',
    decreases s.len(),
{
    if s.len() > 0 && s.last() == '/' {
        lemma_last_differs(s.drop_last());
    }
}

/// The path of an entry begins with the root of its volume, whatever slashes that ends in, and a
/// root without a name is `/`.
pub proof fn law_under_the_root(prefix: Seq<char>, rel: Seq<char>)
    ensures
        rel.len() > 0 ==> under_prefix(prefix, rel) == text::trimmed_end(prefix, '/') + "/"@ + rel,
        rel.len() == 0 && text::trimmed_end(prefix, '/').len() > 0 ==> under_prefix(prefix, rel)
            == text::trimmed_end(prefix, '/'),
        rel.len() == 0 && text::trimmed_end(prefix, '/').len() == 0 ==> under_prefix(prefix, rel)
            == "/"@,
{
}

/// The name of a directory is what its place in the buffer holds, without a zero at its end.
pub proof fn law_name_of_a_directory(before: Seq<u8>, name: Seq<char>, after: Seq<u8>, d: DirNode)
    requires
        d.name_offset == before.len(),
        ({
            let b = vstd::utf8::encode_utf8(name);
            d.name_len == b.len() + 1 || (d.name_len == b.len() && (b.len() == 0 || b.last() != 0))
        }),
    ensures
        ({
            let b = vstd::utf8::encode_utf8(name);
            let tail = if d.name_len == b.len() + 1 {
                seq![0u8]
            } else {
                Seq::empty()
            };
            dir_name(before + b + tail + after, d) == Some(name)
        }),
{
    let b = vstd::utf8::encode_utf8(name);
    let tail: Seq<u8> = if d.name_len == b.len() + 1 {
        seq![0u8]
    } else {
        Seq::empty()
    };
    let buf = before + b + tail + after;
    let raw = buf.subrange(d.name_offset as int, d.name_offset + d.name_len);
    assert(raw =~= b + tail);
    if tail.len() == 1 {
        assert(raw.drop_last() =~= b);
    } else {
        assert(raw =~= b);
    }
    vstd::utf8::encode_utf8_valid_utf8(name);
    vstd::utf8::encode_utf8_decode_utf8(name);
}

} // verus!
