//! File paths as texts, in the spelling of Windows or of a system with one file tree: which paths
//! are absolute, how paths are joined, and their last parts.
use vstd::prelude::*;
use crate::text;

verus! {

/// How paths are written.
#[derive(Debug, Clone, Copy, PartialEq, Eq, Structural)]
pub enum PathStyle {
    Windows,
    Unix,
}

/// The characters that separate the parts of a path.
pub open spec fn is_sep(style: PathStyle, c: char) -> bool {
    c == '/' || (style == PathStyle::Windows && c == '\\')
}

/// The separator that joining puts between two parts.
pub open spec fn main_sep(style: PathStyle) -> char {
    match style {
        PathStyle::Windows => '\\',
        PathStyle::Unix => '/',
    }
}

/// A Windows path that begins with `\\?\` is taken literally.
pub open spec fn verbatim(style: PathStyle, p: Seq<char>) -> bool {
    style == PathStyle::Windows && p.len() >= 4 && p[0] == '\\' && p[1] == '\\' && p[2] == '?'
        && p[3] == '\\'
}

/// The separators of the path `p`.
pub open spec fn sep_in(style: PathStyle, literal: bool, c: char) -> bool {
    if literal {
        c == '\\'
    } else {
        is_sep(style, c)
    }
}

/// The place of the first separator at or after `i`, or the end of the path.
pub open spec fn next_sep(style: PathStyle, literal: bool, p: Seq<char>, i: int) -> int
    decreases p.len() - i,
{
    if i >= p.len() {
        p.len() as int
    } else if sep_in(style, literal, p[i]) {
        i
    } else {
        next_sep(style, literal, p, i + 1)
    }
}

/// The path begins with a drive letter and a colon.
pub open spec fn drive_prefix(style: PathStyle, p: Seq<char>) -> bool {
    style == PathStyle::Windows && p.len() >= 2 && text::ascii_letter(p[0]) && p[1] == ':'
}

/// The end of a server and a share that begin at `i`.
pub open spec fn share_end(style: PathStyle, literal: bool, p: Seq<char>, i: int) -> int {
    let s = next_sep(style, literal, p, i);
    if s >= p.len() || next_sep(style, literal, p, s + 1) == s + 1 {
        s
    } else {
        next_sep(style, literal, p, s + 1)
    }
}

/// The length of what names a drive, a share or a device at the start of a Windows path.
pub open spec fn prefix_len(style: PathStyle, p: Seq<char>) -> int {
    if style == PathStyle::Unix {
        0
    } else if verbatim(style, p) {
        if p.len() >= 8 && p[4] == 'U' && p[5] == 'N' && p[6] == 'C' && p[7] == '\\' {
            share_end(style, true, p, 8)
        } else {
            next_sep(style, true, p, 4)
        }
    } else if p.len() >= 4 && is_sep(style, p[0]) && is_sep(style, p[1]) && p[2] == '.' && is_sep(
        style,
        p[3],
    ) {
        next_sep(style, false, p, 4)
    } else if p.len() >= 2 && is_sep(style, p[0]) && is_sep(style, p[1]) {
        let s = next_sep(style, false, p, 2);
        let e = share_end(style, false, p, 2);
        if s > 2 && e > s {
            e
        } else {
            0
        }
    } else if drive_prefix(style, p) {
        2
    } else {
        0
    }
}

/// The length of the prefix together with the separator of the root, where there is one.
pub open spec fn root_len(style: PathStyle, p: Seq<char>) -> int {
    let n = prefix_len(style, p);
    if n < p.len() && sep_in(style, verbatim(style, p), p[n]) {
        n + 1
    } else {
        n
    }
}

/// The path starts at a root: one that it writes, or that of a share or device.
pub open spec fn has_root(style: PathStyle, p: Seq<char>) -> bool {
    let n = prefix_len(style, p);
    (n < p.len() && sep_in(style, verbatim(style, p), p[n])) || (n > 0 && !drive_prefix(style, p))
}

pub open spec fn absolute(style: PathStyle, p: Seq<char>) -> bool {
    has_root(style, p) && (style == PathStyle::Unix || prefix_len(style, p) > 0)
}

/// `p` seen from `base`.
pub open spec fn joined_path(style: PathStyle, base: Seq<char>, p: Seq<char>) -> Seq<char> {
    if absolute(style, p) || prefix_len(style, p) > 0 {
        p
    } else if verbatim(style, base) && p.len() > 0 {
        literal_join(style, base, p)
    } else if p.len() > 0 && is_sep(style, p[0]) {
        base.take(prefix_len(style, base)) + p
    } else if base.len() == 0 || is_sep(style, base.last()) || (drive_prefix(style, base)
        && base.len() == 2) {
        base + p
    } else {
        base.push(main_sep(style)) + p
    }
}

/// `p` without separators and idle dots at its end, but at least its first `min` characters.
pub open spec fn trim_tail(style: PathStyle, literal: bool, p: Seq<char>, min: int) -> Seq<char>
    decreases p.len(),
{
    if p.len() <= min || p.len() == 0 {
        p
    } else if sep_in(style, literal, p.last()) || (!literal && p.last() == '.' && p.len() >= 2
        && is_sep(style, p[p.len() - 2])) {
        trim_tail(style, literal, p.drop_last(), min)
    } else {
        p
    }
}

/// Where the last part of `p` begins, not before `min`.
pub open spec fn last_part(style: PathStyle, literal: bool, p: Seq<char>, min: int) -> int
    decreases p.len(),
{
    if p.len() <= min || p.len() == 0 || sep_in(style, literal, p.last()) {
        p.len() as int
    } else {
        last_part(style, literal, p.drop_last(), min)
    }
}

/// The path above `p`; a root has none.
pub open spec fn parent_of(style: PathStyle, p: Seq<char>) -> Option<Seq<char>> {
    let literal = verbatim(style, p);
    let root = root_len(style, p);
    let q = trim_tail(style, literal, p, root);
    if q.len() <= root {
        None
    } else {
        Some(trim_tail(style, literal, q.take(last_part(style, literal, q, root)), root))
    }
}

/// The last part of a path, unless it is a root or an idle or upward dot.
pub open spec fn file_name_of(style: PathStyle, p: Seq<char>) -> Option<Seq<char>> {
    let literal = verbatim(style, p);
    let root = root_len(style, p);
    let q = trim_tail(style, literal, p, root);
    if q.len() <= root {
        None
    } else {
        let name = q.skip(last_part(style, literal, q, root));
        if name == "."@ || name == ".."@ {
            None
        } else {
            Some(name)
        }
    }
}

/// What follows the last dot of a name, unless the name begins with it.
pub open spec fn name_extension(name: Seq<char>) -> Option<Seq<char>> {
    match text::before_last(name, '.') {
        Some(stem) if stem.len() > 0 => text::after_last(name, '.'),
        _ => None,
    }
}

/// What stands before the extension of a name.
pub open spec fn name_stem(name: Seq<char>) -> Seq<char> {
    match text::before_last(name, '.') {
        Some(stem) if stem.len() > 0 => stem,
        _ => name,
    }
}

pub open spec fn extension_of(style: PathStyle, p: Seq<char>) -> Option<Seq<char>> {
    match file_name_of(style, p) {
        Some(name) => name_extension(name),
        None => None,
    }
}

/// The path with another extension (which is not empty); a path without a name stays as it is.
pub open spec fn with_ext(style: PathStyle, p: Seq<char>, ext: Seq<char>) -> Seq<char> {
    let literal = verbatim(style, p);
    let root = root_len(style, p);
    let q = trim_tail(style, literal, p, root);
    match file_name_of(style, p) {
        Some(name) => q.take(last_part(style, literal, q, root)) + name_stem(name) + "."@ + ext,
        None => p,
    }
}

// ---- executable -----------------------------------------------------------------------------

fn sep_char(style: PathStyle, literal: bool, c: char) -> (r: bool)
    ensures
        r == sep_in(style, literal, c),
{
    match style {
        PathStyle::Windows => {
            if literal {
                c == '\\'
            } else {
                c == '/' || c == '\\'
            }
        },
        PathStyle::Unix => {
            if literal {
                c == '\\'
            } else {
                c == '/'
            }
        },
    }
}

fn is_verbatim(style: PathStyle, p: &Vec<char>) -> (r: bool)
    ensures
        r == verbatim(style, p@),
{
    match style {
        PathStyle::Windows => p.len() >= 4 && p[0] == '\\' && p[1] == '\\' && p[2] == '?' && p[3]
            == '\\',
        PathStyle::Unix => false,
    }
}

fn find_sep(style: PathStyle, literal: bool, p: &Vec<char>, i: usize) -> (r: usize)
    requires
        i <= p@.len(),
    ensures
        r == next_sep(style, literal, p@, i as int),
        i <= r <= p@.len(),
    decreases p@.len() - i,
{
    if i >= p.len() {
        p.len()
    } else if sep_char(style, literal, p[i]) {
        i
    } else {
        find_sep(style, literal, p, i + 1)
    }
}

fn find_share_end(style: PathStyle, literal: bool, p: &Vec<char>, i: usize) -> (r: usize)
    requires
        i <= p@.len(),
    ensures
        r == share_end(style, literal, p@, i as int),
        i <= r <= p@.len(),
{
    let s = find_sep(style, literal, p, i);
    if s >= p.len() {
        return s;
    }
    let e = find_sep(style, literal, p, s + 1);
    if e == s + 1 {
        s
    } else {
        e
    }
}

fn has_drive(style: PathStyle, p: &Vec<char>) -> (r: bool)
    ensures
        r == drive_prefix(style, p@),
{
    match style {
        PathStyle::Windows => p.len() >= 2 && text::is_ascii_letter(p[0]) && p[1] == ':',
        PathStyle::Unix => false,
    }
}

fn find_prefix(style: PathStyle, p: &Vec<char>) -> (r: usize)
    ensures
        r == prefix_len(style, p@),
        r <= p@.len(),
{
    match style {
        PathStyle::Unix => 0,
        PathStyle::Windows => {
            if is_verbatim(style, p) {
                if p.len() >= 8 && p[4] == 'U' && p[5] == 'N' && p[6] == 'C' && p[7] == '\\' {
                    find_share_end(style, true, p, 8)
                } else {
                    find_sep(style, true, p, 4)
                }
            } else if p.len() >= 4 && sep_char(style, false, p[0]) && sep_char(style, false, p[1])
                && p[2] == '.' && sep_char(style, false, p[3]) {
                find_sep(style, false, p, 4)
            } else if p.len() >= 2 && sep_char(style, false, p[0]) && sep_char(
                style,
                false,
                p[1],
            ) {
                let s = find_sep(style, false, p, 2);
                let e = find_share_end(style, false, p, 2);
                if s > 2 && e > s {
                    e
                } else {
                    0
                }
            } else if has_drive(style, p) {
                2
            } else {
                0
            }
        },
    }
}

fn find_root(style: PathStyle, p: &Vec<char>) -> (r: usize)
    ensures
        r == root_len(style, p@),
        r <= p@.len(),
{
    let n = find_prefix(style, p);
    if n < p.len() && sep_char(style, is_verbatim(style, p), p[n]) {
        n + 1
    } else {
        n
    }
}

fn chars_absolute(style: PathStyle, p: &Vec<char>) -> (r: bool)
    ensures
        r == absolute(style, p@),
{
    let n = find_prefix(style, p);
    let rooted = (n < p.len() && sep_char(style, is_verbatim(style, p), p[n])) || (n > 0
        && !has_drive(style, p));
    match style {
        PathStyle::Unix => rooted,
        PathStyle::Windows => rooted && n > 0,
    }
}

pub fn is_absolute(style: PathStyle, p: &str) -> (r: bool)
    ensures
        r == absolute(style, p@),
{
    let cs = text::chars_of(p);
    chars_absolute(style, &cs)
}

/// `p` as it is where it is absolute, else below `base`.
pub fn join(style: PathStyle, base: &str, p: &str) -> (r: String)
    ensures
        r@ == joined_path(style, base@, p@),
{
    let b = text::chars_of(base);
    let q = text::chars_of(p);
    if chars_absolute(style, &q) || find_prefix(style, &q) > 0 {
        return text::copied(p);
    }
    if is_verbatim(style, &b) && q.len() > 0 {
        return join_literally(style, base, p);
    }
    if q.len() > 0 && sep_char(style, false, q[0]) {
        let n = find_prefix(style, &b);
        let mut s = text::string_between(&b, 0, n);
        assert(s@ =~= base@.take(n as int));
        s.push_str(p);
        return s;
    }
    let mut s = text::copied(base);
    let n: usize = b.len();
    if !(n == 0 || sep_char(style, false, b[n - 1]) || (has_drive(style, &b) && n == 2)) {
        match style {
            PathStyle::Windows => s.push('\\'),
            PathStyle::Unix => s.push('/'),
        }
    }
    s.push_str(p);
    s
}

fn find_tail(style: PathStyle, literal: bool, p: &Vec<char>, min: usize) -> (r: usize)
    ensures
        r <= p@.len(),
        p@.take(r as int) == trim_tail(style, literal, p@, min as int),
{
    let mut n: usize = p.len();
    proof {
        assert(p@.take(n as int) =~= p@);
    }
    while n > min && n > 0 && (sep_char(style, literal, p[n - 1]) || (!literal && p[n - 1] == '.'
        && n >= 2 && sep_char(style, false, p[n - 2])))
        invariant
            n <= p@.len(),
            trim_tail(style, literal, p@, min as int) == trim_tail(
                style,
                literal,
                p@.take(n as int),
                min as int,
            ),
        decreases n,
    {
        proof {
            assert(p@.take(n as int).drop_last() =~= p@.take(n - 1));
        }
        n -= 1;
    }
    n
}

fn find_last_part(style: PathStyle, literal: bool, p: &Vec<char>, end: usize, min: usize) -> (r:
    usize)
    requires
        end <= p@.len(),
    ensures
        r <= end,
        r == last_part(style, literal, p@.take(end as int), min as int),
{
    let mut n: usize = end;
    while n > min && n > 0 && !sep_char(style, literal, p[n - 1])
        invariant
            n <= end <= p@.len(),
            last_part(style, literal, p@.take(end as int), min as int) == last_part(
                style,
                literal,
                p@.take(n as int),
                min as int,
            ),
        decreases n,
    {
        proof {
            assert(p@.take(n as int).drop_last() =~= p@.take(n - 1));
            assert(p@.take(n as int).last() == p@[n - 1]);
        }
        n -= 1;
    }
    proof {
        if n > 0 {
            assert(p@.take(n as int).last() == p@[n - 1]);
        }
    }
    n
}

/// The path above `p`, where there is one.
pub fn parent(style: PathStyle, p: &str) -> (r: Option<String>)
    ensures
        (match r {
            Some(s) => Some(s@),
            None => None,
        }) == parent_of(style, p@),
{
    let cs = text::chars_of(p);
    let literal = is_verbatim(style, &cs);
    let root = find_root(style, &cs);
    let end = find_tail(style, literal, &cs, root);
    if end <= root {
        return None;
    }
    let at = find_last_part(style, literal, &cs, end, root);
    let mut head: Vec<char> = Vec::new();
    let mut i: usize = 0;
    while i < at
        invariant
            i <= at <= cs@.len(),
            head@ == cs@.take(i as int),
        decreases at - i,
    {
        head.push(cs[i]);
        proof {
            assert(head@ =~= cs@.take(i + 1));
        }
        i += 1;
    }
    proof {
        assert(cs@.take(end as int).take(at as int) =~= cs@.take(at as int));
    }
    let n = find_tail(style, literal, &head, root);
    let s = text::string_between(&head, 0, n);
    assert(s@ =~= head@.take(n as int));
    Some(s)
}

/// The name of the file or directory that `p` leads to.
pub fn file_name(style: PathStyle, p: &str) -> (r: Option<String>)
    ensures
        (match r {
            Some(s) => Some(s@),
            None => None,
        }) == file_name_of(style, p@),
{
    let cs = text::chars_of(p);
    let literal = is_verbatim(style, &cs);
    let root = find_root(style, &cs);
    let end = find_tail(style, literal, &cs, root);
    if end <= root {
        return None;
    }
    let at = find_last_part(style, literal, &cs, end, root);
    let s = text::string_between(&cs, at, end);
    proof {
        assert(s@ =~= cs@.take(end as int).skip(at as int));
    }
    if text::same_text(&s, ".") || text::same_text(&s, "..") {
        None
    } else {
        Some(s)
    }
}

/// The extension of the name of `p`, where there is one.
pub fn extension(style: PathStyle, p: &str) -> (r: Option<String>)
    ensures
        (match r {
            Some(s) => Some(s@),
            None => None,
        }) == extension_of(style, p@),
{
    let name = match file_name(style, p) {
        Some(n) => n,
        None => {
            return None;
        },
    };
    match text::split_last(&name, '.') {
        Some((stem, ext)) => {
            if stem.as_str().is_empty() {
                None
            } else {
                Some(ext)
            }
        },
        None => None,
    }
}

/// The path with the extension `ext` in place of its own.
pub fn with_extension(style: PathStyle, p: &str, ext: &str) -> (r: String)
    ensures
        r@ == with_ext(style, p@, ext@),
{
    let name = match file_name(style, p) {
        Some(n) => n,
        None => {
            return text::copied(p);
        },
    };
    let cs = text::chars_of(p);
    let literal = is_verbatim(style, &cs);
    let root = find_root(style, &cs);
    let end = find_tail(style, literal, &cs, root);
    let at = find_last_part(style, literal, &cs, end, root);
    let mut s = text::string_between(&cs, 0, at);
    proof {
        assert(s@ =~= cs@.take(end as int).take(at as int));
    }
    let stem = match text::split_last(&name, '.') {
        Some((stem, _)) => {
            if stem.as_str().is_empty() {
                name
            } else {
                stem
            }
        },
        None => name,
    };
    s.push_str(&stem);
    s.push_str(".");
    s.push_str(ext);
    s
}

// ---- equality -----------------------------------------------------------------------------------

/// `s` with one kind of separator.
pub open spec fn unified(style: PathStyle, literal: bool, s: Seq<char>) -> Seq<char> {
    if style == PathStyle::Windows && !literal {
        text::replaced(s, '/', "\\"@)
    } else {
        s
    }
}

/// The parts that count: not those that are empty or a dot, but a dot that begins a path without
/// a root does.
pub open spec fn real_parts(v: Seq<Seq<char>>, literal: bool, rooted: bool) -> Seq<Seq<char>>
    decreases v.len(),
{
    if v.len() == 0 {
        Seq::empty()
    } else {
        let rest = real_parts(v.drop_last(), literal, rooted);
        let x = v.last();
        if x.len() == 0 || (x == "."@ && !literal && (rooted || v.len() > 1)) {
            rest
        } else {
            rest.push(x)
        }
    }
}

/// The prefix of a path in one spelling: drive letters as capitals.
pub open spec fn canonical_prefix(style: PathStyle, p: Seq<char>) -> Seq<char> {
    let prefix = p.take(prefix_len(style, p));
    if drive_prefix(style, p) {
        text::uppercased(prefix)
    } else {
        unified(style, verbatim(style, p), prefix)
    }
}

pub open spec fn parts_of(style: PathStyle, p: Seq<char>) -> Seq<Seq<char>> {
    let literal = verbatim(style, p);
    real_parts(
        text::pieces(
            unified(style, literal, p.skip(prefix_len(style, p))),
            main_sep(style),
        ),
        literal,
        has_root(style, p),
    )
}

/// The two paths name the same place part by part.
pub open spec fn same_path(style: PathStyle, a: Seq<char>, b: Seq<char>) -> bool {
    canonical_prefix(style, a) == canonical_prefix(style, b) && has_root(style, a) == has_root(
        style,
        b,
    ) && parts_of(style, a) == parts_of(style, b)
}

fn unify(style: PathStyle, literal: bool, s: &str) -> (r: String)
    ensures
        r@ == unified(style, literal, s@),
{
    match style {
        PathStyle::Windows => {
            if literal {
                text::copied(s)
            } else {
                text::replace_char(s, '/', "\\")
            }
        },
        PathStyle::Unix => text::copied(s),
    }
}

fn drop_idle_parts(v: Vec<String>, literal: bool, rooted: bool) -> (r: Vec<String>)
    ensures
        text::texts(r@) == real_parts(text::texts(v@), literal, rooted),
{
    let ghost all = text::texts(v@);
    let mut out: Vec<String> = Vec::new();
    let mut i: usize = 0;
    proof {
        assert(all.take(0) =~= Seq::empty());
        assert(text::texts(out@) =~= Seq::empty());
    }
    while i < v.len()
        invariant
            i <= v.len(),
            all == text::texts(v@),
            text::texts(out@) == real_parts(all.take(i as int), literal, rooted),
        decreases v.len() - i,
    {
        let ghost had = text::texts(out@);
        proof {
            assert(all.take(i + 1).drop_last() =~= all.take(i as int));
            assert(all.take(i + 1).last() == v@[i as int]@);
        }
        let x: &String = &v[i];
        if !(x.as_str().is_empty() || (text::same_text(x, ".") && !literal && (rooted || i > 0))) {
            out.push(text::copied(x));
            proof {
                assert(text::texts(out@) =~= had.push(v@[i as int]@));
            }
        }
        i += 1;
    }
    assert(all.take(all.len() as int) =~= all);
    out
}

fn path_key(style: PathStyle, p: &str) -> (r: (String, bool, Vec<String>))
    ensures
        r.0@ == canonical_prefix(style, p@),
        r.1 == has_root(style, p@),
        text::texts(r.2@) == parts_of(style, p@),
{
    let cs = text::chars_of(p);
    let literal = is_verbatim(style, &cs);
    let n = find_prefix(style, &cs);
    let drive = has_drive(style, &cs);
    let prefix = text::string_between(&cs, 0, n);
    assert(prefix@ =~= p@.take(n as int));
    let rest = text::string_between(&cs, n, cs.len());
    assert(rest@ =~= p@.skip(n as int));
    let canonical = if drive {
        text::to_upper(&prefix)
    } else {
        unify(style, literal, &prefix)
    };
    let rooted = (n < cs.len() && sep_char(style, literal, cs[n])) || (n > 0 && !drive);
    let sep = match style {
        PathStyle::Windows => '\\',
        PathStyle::Unix => '/',
    };
    let unified_rest = unify(style, literal, &rest);
    let parts = text::split(&unified_rest, sep);
    (canonical, rooted, drop_idle_parts(parts, literal, rooted))
}

/// Whether two paths name the same place part by part.
pub fn equal_paths(style: PathStyle, a: &str, b: &str) -> (r: bool)
    ensures
        r == same_path(style, a@, b@),
{
    let x = path_key(style, a);
    let y = path_key(style, b);
    if !text::same_text(&x.0, &y.0) || x.1 != y.1 || x.2.len() != y.2.len() {
        proof {
            assert(text::texts(x.2@).len() == x.2@.len());
            assert(text::texts(y.2@).len() == y.2@.len());
        }
        return false;
    }
    let ghost xs = text::texts(x.2@);
    let ghost ys = text::texts(y.2@);
    let mut i: usize = 0;
    while i < x.2.len()
        invariant
            i <= x.2.len(),
            x.2@.len() == y.2@.len(),
            xs == parts_of(style, a@),
            ys == parts_of(style, b@),
            xs == text::texts(x.2@),
            ys == text::texts(y.2@),
            forall|k: int| 0 <= k < i ==> xs[k] == ys[k],
        decreases x.2.len() - i,
    {
        proof {
            assert(xs[i as int] == x.2@[i as int]@);
            assert(ys[i as int] == y.2@[i as int]@);
        }
        if !text::same_text(&x.2[i], &y.2[i]) {
            return false;
        }
        i += 1;
    }
    assert(xs =~= ys);
    true
}

// ---- below a path that is taken literally -------------------------------------------------------

/// A part that names something: no dots alone.
pub open spec fn names(part: Seq<char>) -> bool {
    part != "."@ && part != ".."@
}

/// The parts that `steps` lead to from `from`: a dot stays where it is, two dots go up, but never
/// above the root or out of a part that names nothing.
pub open spec fn walked(from: Seq<Seq<char>>, steps: Seq<Seq<char>>) -> Seq<Seq<char>>
    decreases steps.len(),
{
    if steps.len() == 0 {
        from
    } else {
        let at = walked(from, steps.drop_last());
        let x = steps.last();
        if x == "."@ {
            at
        } else if x == ".."@ {
            if at.len() > 0 && names(at.last()) {
                at.drop_last()
            } else {
                at
            }
        } else {
            at.push(x)
        }
    }
}

/// `p`, which is relative and not empty, below a base that is taken literally: dots in it are
/// worked out, since nobody does so later.
pub open spec fn literal_join(style: PathStyle, base: Seq<char>, p: Seq<char>) -> Seq<char> {
    let n = prefix_len(style, base);
    let from_root = is_sep(style, p[0]);
    let from = if from_root {
        Seq::empty()
    } else {
        parts_of(style, base)
    };
    let parts = walked(from, parts_of(style, p));
    let root = if from_root || (n < base.len() && base[n] == '\\') || parts.len() > 0 {
        "\\"@
    } else {
        Seq::empty()
    };
    base.take(n) + root + text::joined(parts, "\\"@)
}

fn walk(from: Vec<String>, steps: &Vec<String>) -> (r: Vec<String>)
    ensures
        text::texts(r@) == walked(text::texts(from@), text::texts(steps@)),
{
    let ghost start = text::texts(from@);
    let ghost all = text::texts(steps@);
    let mut at = from;
    let mut i: usize = 0;
    proof {
        assert(all.take(0) =~= Seq::empty());
    }
    while i < steps.len()
        invariant
            i <= steps.len(),
            all == text::texts(steps@),
            text::texts(at@) == walked(start, all.take(i as int)),
        decreases steps.len() - i,
    {
        let ghost had = text::texts(at@);
        let x: &String = &steps[i];
        proof {
            assert(all.take(i + 1).drop_last() =~= all.take(i as int));
            assert(all.take(i + 1).last() == x@);
        }
        if text::same_text(x, "..") {
            let n: usize = at.len();
            proof {
                assert(had.len() == n);
                if n > 0 {
                    assert(had.last() == at@[n - 1]@);
                }
                reveal_strlit(".");
                reveal_strlit("..");
                assert("."@.len() != ".."@.len());
            }
            if n > 0 && !text::same_text(&at[n - 1], ".") && !text::same_text(&at[n - 1], "..") {
                at.pop();
                proof {
                    assert(text::texts(at@) =~= had.drop_last());
                }
            }
        } else if !text::same_text(x, ".") {
            at.push(text::copied(x));
            proof {
                assert(text::texts(at@) =~= had.push(x@));
            }
        }
        i += 1;
    }
    proof {
        assert(all.take(all.len() as int) =~= all);
    }
    at
}

fn join_literally(style: PathStyle, base: &str, p: &str) -> (r: String)
    requires
        verbatim(style, base@),
        p@.len() > 0,
    ensures
        r@ == literal_join(style, base@, p@),
{
    let b = text::chars_of(base);
    let q = text::chars_of(p);
    let n = find_prefix(style, &b);
    let from_root = sep_char(style, false, q[0]);
    let from: Vec<String> = if from_root {
        Vec::new()
    } else {
        path_key(style, base).2
    };
    proof {
        if from_root {
            assert(text::texts(from@) =~= Seq::empty());
        }
    }
    let parts = walk(from, &path_key(style, p).2);
    let rest = text::join(&parts, "\\");
    let mut s = text::string_between(&b, 0, n);
    assert(s@ =~= base@.take(n as int));
    if from_root || (n < b.len() && b[n] == '\\') || parts.len() > 0 {
        s.push_str("\\");
    }
    proof {
        assert(text::texts(parts@).len() == parts@.len());
    }
    let ghost before = s@;
    s.push_str(&rest);
    assert(s@ =~= literal_join(style, base@, p@));
    s
}

// ---- laws -------------------------------------------------------------------------------------

/// An absolute path does not depend on where it is seen from.
pub proof fn law_join_absolute(style: PathStyle, base: Seq<char>, p: Seq<char>)
    requires
        absolute(style, p),
    ensures
        joined_path(style, base, p) == p,
{
}

/// A plain name below a directory: the directory, one separator and the name.
pub proof fn law_join_name(style: PathStyle, base: Seq<char>, name: Seq<char>)
    requires
        base.len() > 2,
        !is_sep(style, base.last()),
        !verbatim(style, base),
        name.len() > 0,
        !is_sep(style, name[0]),
        !drive_prefix(style, name),
    ensures
        joined_path(style, base, name) == base.push(main_sep(style)) + name,
{
    assert(prefix_len(style, name) == 0);
}

/// A plain name below a directory that is taken literally: one part more.
pub proof fn law_literal_join_name(style: PathStyle, base: Seq<char>, name: Seq<char>)
    requires
        verbatim(style, base),
        name.len() > 0,
        names(name),
        forall|i: int| 0 <= i < name.len() ==> #[trigger] name[i] != '/' && name[i] != '\\',
        !drive_prefix(style, name),
    ensures
        joined_path(style, base, name) == base.take(prefix_len(style, base)) + "\\"@
            + text::joined(parts_of(style, base).push(name), "\\"@),
{
    assert(!is_sep(style, name[0]));
    if name.len() >= 2 {
        assert(!is_sep(style, name[1]));
    }
    assert(prefix_len(style, name) == 0);
    assert(name.skip(0) =~= name);
    lemma_nothing_to_replace(name, '/', "\\"@);
    lemma_one_piece(name, '\\');
    reveal_with_fuel(real_parts, 2);
    reveal_with_fuel(walked, 2);
    let v = seq![name];
    assert(v.drop_last() =~= Seq::<Seq<char>>::empty());
    assert(real_parts(v, false, has_root(style, name)) =~= seq![name]);
    let steps = parts_of(style, name);
    assert(steps =~= seq![name]);
    assert(steps.drop_last() =~= Seq::<Seq<char>>::empty());
    assert(walked(parts_of(style, base), steps) == parts_of(style, base).push(name));
}

proof fn lemma_nothing_to_replace(s: Seq<char>, from: char, to: Seq<char>)
    requires
        forall|i: int| 0 <= i < s.len() ==> #[trigger] s[i] != from,
    ensures
        text::replaced(s, from, to) == s,
    decreases s.len(),
{
    if s.len() > 0 {
        let init = s.drop_last();
        assert forall|i: int| 0 <= i < init.len() implies #[trigger] init[i] != from by {
            assert(s[i] == init[i]);
        }
        lemma_nothing_to_replace(init, from, to);
        assert(s[s.len() - 1] != from);
        assert(text::replaced(s, from, to) =~= s);
    }
}

proof fn lemma_one_piece(s: Seq<char>, c: char)
    requires
        forall|i: int| 0 <= i < s.len() ==> #[trigger] s[i] != c,
    ensures
        text::pieces(s, c) == seq![s],
    decreases s.len(),
{
    if s.len() > 0 {
        let init = s.drop_last();
        assert forall|i: int| 0 <= i < init.len() implies #[trigger] init[i] != c by {
            assert(s[i] == init[i]);
        }
        lemma_one_piece(init, c);
        assert(s[s.len() - 1] != c);
        assert(init.push(s.last()) =~= s);
        assert(text::pieces(s, c) =~= seq![s]);
    } else {
        assert(s =~= Seq::empty());
    }
}

/// The name is one part of a path: not empty, without separators, and no dot part.
pub open spec fn plain_name(name: Seq<char>) -> bool {
    &&& name.len() > 0
    &&& name != "."@
    &&& name != ".."@
    &&& forall|i: int| 0 <= i < name.len() ==> #[trigger] name[i] != '/' && name[i] != '\\'
}

proof fn lemma_last_part(style: PathStyle, p: Seq<char>, at: int, min: int)
    requires
        min <= at <= p.len(),
        0 < at,
        is_sep(style, p[at - 1]),
        forall|i: int| at <= i < p.len() ==> !is_sep(style, #[trigger] p[i]),
    ensures
        last_part(style, false, p, min) == at,
    decreases p.len(),
{
    if p.len() > at {
        assert(p.last() == p[p.len() - 1]);
        let q = p.drop_last();
        assert forall|i: int| at <= i < q.len() implies !is_sep(style, #[trigger] q[i]) by {
            assert(q[i] == p[i]);
        }
        assert(q[at - 1] == p[at - 1]);
        lemma_last_part(style, q, at, min);
    }
}

/// The name of a file is what stands behind the last separator of its path; its extension is what
/// stands behind the last dot of the name, unless the name begins with it. For files below the root
/// of a drive, and for any file where there are no drives.
pub proof fn law_name_of_a_file(style: PathStyle, dir: Seq<char>, stem: Seq<char>, ext: Seq<char>)
    requires
        style == PathStyle::Windows ==> drive_prefix(style, dir),
        stem.len() > 0,
        plain_name(stem + "."@ + ext),
        !ext.contains('.'),
    ensures
        ({
            let p = dir + seq![main_sep(style)] + (stem + "."@ + ext);
            &&& file_name_of(style, p) == Some(stem + "."@ + ext)
            &&& extension_of(style, p) == Some(ext)
        }),
{
    reveal_strlit(".");
    reveal_strlit("..");
    let name = stem + "."@ + ext;
    let p = dir + seq![main_sep(style)] + name;
    let at = dir.len() + 1;
    assert(p.skip(at as int) =~= name);
    assert(p[at - 1] == main_sep(style));
    assert forall|i: int| at <= i < p.len() implies !is_sep(style, #[trigger] p[i]) by {
        assert(p[i] == name[i - at]);
    }
    if style == PathStyle::Windows {
        assert(p[0] == dir[0] && p[1] == dir[1]);
    }
    assert(!verbatim(style, p));
    assert(root_len(style, p) <= at);
    assert(p.last() == p[p.len() - 1]);
    if p.last() == '.' && is_sep(style, p[p.len() - 2]) {
        assert(p.len() - 2 == at - 1);
        assert(name =~= "."@);
    }
    lemma_last_part(style, p, at as int, root_len(style, p));
    lemma_split_at_last(stem, '.', ext);
    assert(stem.push('.') + ext =~= name);
}

proof fn lemma_split_at_last(a: Seq<char>, c: char, b: Seq<char>)
    requires
        !b.contains(c),
    ensures
        text::before_last(a.push(c) + b, c) == Some(a),
        text::after_last(a.push(c) + b, c) == Some(b),
    decreases b.len(),
{
    let s = a.push(c) + b;
    if b.len() == 0 {
        assert(s =~= a.push(c));
        assert(s.drop_last() =~= a);
        assert(b =~= Seq::empty());
    } else {
        let t = b.drop_last();
        assert(b.last() == b[b.len() - 1]);
        assert(b.contains(b.last()));
        assert(!t.contains(c)) by {
            if t.contains(c) {
                let k = choose|k: int| 0 <= k < t.len() && t[k] == c;
                assert(b[k] == c);
            }
        }
        lemma_split_at_last(a, c, t);
        assert(s.drop_last() =~= a.push(c) + t);
        assert(s.last() == b.last());
        assert(t.push(b.last()) =~= b);
    }
}

/// The directory of a file is what stands before its name, and another extension takes the place of
/// what stands behind the last dot.
pub proof fn law_directory_of_a_file(
    style: PathStyle,
    dir: Seq<char>,
    stem: Seq<char>,
    ext: Seq<char>,
    other: Seq<char>,
)
    requires
        style == PathStyle::Windows ==> drive_prefix(style, dir) && dir.len() > 2,
        dir.len() > 0,
        !is_sep(style, dir.last()),
        dir.last() != '.',
        stem.len() > 0,
        plain_name(stem + "."@ + ext),
        !ext.contains('.'),
    ensures
        ({
            let p = dir + seq![main_sep(style)] + (stem + "."@ + ext);
            &&& parent_of(style, p) == Some(dir)
            &&& with_ext(style, p, other) == dir + seq![main_sep(style)] + (stem + "."@ + other)
        }),
{
    reveal_strlit(".");
    reveal_strlit("..");
    let name = stem + "."@ + ext;
    let p = dir + seq![main_sep(style)] + name;
    let at = dir.len() + 1;
    law_name_of_a_file(style, dir, stem, ext);
    assert(p[at - 1] == main_sep(style));
    assert forall|i: int| at <= i < p.len() implies !is_sep(style, #[trigger] p[i]) by {
        assert(p[i] == name[i - at]);
    }
    assert(p[0] == dir[0]);
    if style == PathStyle::Windows {
        assert(p[1] == dir[1]);
        assert(p[2] == dir[2]);
    }
    let root = root_len(style, p);
    assert(!verbatim(style, p));
    assert(root <= dir.len()) by {
        assert(dir.last() == dir[dir.len() - 1]);
    }
    assert(p.last() == p[p.len() - 1]);
    if p.last() == '.' && is_sep(style, p[p.len() - 2]) {
        assert(p.len() - 2 == at - 1);
        assert(name =~= "."@);
    }
    assert(trim_tail(style, false, p, root) == p);
    lemma_last_part(style, p, at as int, root);
    let head = p.take(at as int);
    assert(head.last() == main_sep(style));
    assert(head.drop_last() =~= dir);
    assert(trim_tail(style, false, dir, root) == dir);
    lemma_split_at_last(stem, '.', ext);
    assert(stem.push('.') + ext =~= name);
    assert(head + stem + "."@ + other =~= dir + seq![main_sep(style)] + (stem + "."@ + other));
}

/// The root of a drive has no directory above it and no name; what lies in it has it above.
pub proof fn law_root_of_a_drive(c: char, name: Seq<char>)
    requires
        text::ascii_letter(c),
        plain_name(name),
    ensures
        parent_of(PathStyle::Windows, seq![c, ':', '\\']) is None,
        file_name_of(PathStyle::Windows, seq![c, ':', '\\']) is None,
        parent_of(PathStyle::Windows, seq![c, ':', '\\'] + name) == Some(seq![c, ':', '\\']),
        file_name_of(PathStyle::Windows, seq![c, ':', '\\'] + name) == Some(name),
{
    reveal_strlit(".");
    reveal_strlit("..");
    let style = PathStyle::Windows;
    let base = seq![c, ':', '\\'];
    let p = base + name;
    assert(base[0] == c && base[1] == ':' && base[2] == '\\');
    assert(p[0] == c && p[1] == ':' && p[2] == '\\');
    assert(!verbatim(style, base) && !verbatim(style, p));
    assert(root_len(style, base) == 3);
    assert(root_len(style, p) == 3);
    assert forall|i: int| 3 <= i < p.len() implies !is_sep(style, #[trigger] p[i]) by {
        assert(p[i] == name[i - 3]);
    }
    assert(p.last() == p[p.len() - 1]);
    if p.last() == '.' && is_sep(style, p[p.len() - 2]) {
        assert(p.len() - 2 == 2);
        assert(name =~= "."@);
    }
    lemma_last_part(style, p, 3, 3);
    assert(p.take(3) =~= base);
    assert(p.skip(3) =~= name);
}

} // verus!
