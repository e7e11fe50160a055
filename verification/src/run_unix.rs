//! What the service sets up and does on systems with one file tree.
use vstd::prelude::*;
use crate::text;

verus! {

/// The volume of the command line: the Windows default counts as none.
pub open spec fn unix_volume(volume: Seq<char>) -> Seq<char> {
    let v = text::trimmed(volume);
    if v.len() == 0 || text::same_ignoring_case(v, "C:"@) || text::same_ignoring_case(
        v,
        "C:\\"@,
    ) {
        Seq::empty()
    } else {
        v
    }
}

pub fn normalize_unix_volume(volume: &str) -> (r: String)
    ensures
        r@ == unix_volume(volume@),
{
    let v = text::trim(volume);
    if v.as_str().is_empty() || text::equals_ignoring_case(&v, "C:")
        || text::equals_ignoring_case(&v, "C:\\") {
        String::new()
    } else {
        v
    }
}

/// The root to watch for a volume of the index: its own root unless that is `/` or nothing (no
/// more than one byte long), else that of the command line, else the default of the system.
pub open spec fn watch_root(
    prefix: Seq<char>,
    volume: Seq<char>,
    default: Seq<char>,
) -> Seq<char> {
    let root = text::trimmed(prefix);
    if root.len() > 1 || (root.len() == 1 && root[0] as u32 >= 0x80) {
        root
    } else if unix_volume(volume).len() > 0 {
        unix_volume(volume)
    } else {
        default
    }
}

pub fn watch_root_for_volume(root_prefix: &str, volume: &str, default: &str) -> (r: String)
    ensures
        r@ == watch_root(root_prefix@, volume@, default@),
{
    let prefix = text::trim(root_prefix);
    let cs = text::chars_of(&prefix);
    if cs.len() > 1 || (cs.len() == 1 && cs[0] as u32 >= 0x80) {
        return prefix;
    }
    let vol = normalize_unix_volume(volume);
    if !vol.as_str().is_empty() {
        return vol;
    }
    text::copied(default)
}

/// The roots to scan: the comma-separated parts of the volume, blanks left out; none for the
/// default.
pub open spec fn nonblank(parts: Seq<Seq<char>>) -> Seq<Seq<char>>
    decreases parts.len(),
{
    if parts.len() == 0 {
        Seq::empty()
    } else {
        let rest = nonblank(parts.drop_last());
        if text::trimmed(parts.last()).len() == 0 {
            rest
        } else {
            rest.push(text::trimmed(parts.last()))
        }
    }
}

pub open spec fn scan_roots(volume: Seq<char>) -> Seq<Seq<char>> {
    if unix_volume(volume).len() == 0 {
        Seq::empty()
    } else {
        nonblank(text::pieces(volume, ','))
    }
}

pub fn build_roots(volume: &str) -> (r: Vec<String>)
    ensures
        text::texts(r@) == scan_roots(volume@),
{
    let mut out: Vec<String> = Vec::new();
    proof {
        assert(text::texts(out@) =~= Seq::empty());
    }
    let v = normalize_unix_volume(volume);
    if v.as_str().is_empty() {
        return out;
    }
    let parts = text::split(volume, ',');
    let ghost all = text::texts(parts@);
    let mut i: usize = 0;
    proof {
        assert(all.take(0) =~= Seq::empty());
    }
    while i < parts.len()
        invariant
            i <= parts.len(),
            all == text::texts(parts@),
            text::texts(out@) == nonblank(all.take(i as int)),
        decreases parts.len() - i,
    {
        let ghost had = text::texts(out@);
        proof {
            assert(all.take(i + 1).drop_last() =~= all.take(i as int));
            assert(all.take(i + 1).last() == parts@[i as int]@);
        }
        let t = text::trim(&parts[i]);
        if !t.as_str().is_empty() {
            out.push(t);
            proof {
                assert(text::texts(out@) =~= had.push(t@));
            }
        }
        i += 1;
    }
    assert(all.take(all.len() as int) =~= all);
    out
}

/// The index is saved at most every five seconds.
pub fn save_interval(secs: u64) -> (r: u64)
    ensures
        r == (if secs < 5 {
            5
        } else {
            secs as int
        }),
{
    if secs < 5 {
        5
    } else {
        secs
    }
}

/// What the loop hears of the watcher.
#[derive(Debug, Clone, Copy, PartialEq, Eq, Structural)]
pub enum TreeEvent {
    /// A change came.
    Change,
    /// Nothing came for a second.
    Quiet,
    /// The watcher is gone.
    Gone,
}

/// What a turn of the loop asks for.
#[derive(Debug)]
pub struct TreeStep {
    /// Apply the change.
    pub apply: bool,
    /// Show the text, then rebuild everything and report with `after_rebuild`.
    pub rebuild: Option<String>,
}

pub fn on_tree_event(e: TreeEvent) -> (r: TreeStep)
    ensures
        r.apply == (e == TreeEvent::Change),
        match r.rebuild {
            Some(s) => e == TreeEvent::Gone && s@ == "增量监听中断，正在重建"@,
            None => e != TreeEvent::Gone,
        },
{
    match e {
        TreeEvent::Change => TreeStep { apply: true, rebuild: None },
        TreeEvent::Quiet => TreeStep { apply: false, rebuild: None },
        TreeEvent::Gone => TreeStep {
            apply: false,
            rebuild: Some(text::copied("增量监听中断，正在重建")),
        },
    }
}

/// After a rebuild: the problem to show (nothing clears it) and the seconds to pause.
pub fn after_rebuild(result: Result<(), String>) -> (r: (Option<String>, u64))
    ensures
        match result {
            Ok(_) => r.0 is None && r.1 == 0,
            Err(e) => r.0 matches Some(s) && s@ == e@ && r.1 == 5,
        },
{
    match result {
        Ok(_) => (None, 0),
        Err(e) => (Some(e), 5),
    }
}

/// The roots to watch: one for each volume of the index, else that of the command line.
pub open spec fn watch_roots(
    prefixes: Seq<Seq<char>>,
    volume: Seq<char>,
    default: Seq<char>,
) -> Seq<Seq<char>> {
    if prefixes.len() == 0 {
        seq![watch_root(Seq::empty(), volume, default)]
    } else {
        prefixes.map_values(|p: Seq<char>| watch_root(p, volume, default))
    }
}

/// The roots to watch where the volumes of the index have the given prefixes.
pub fn roots_to_watch(prefixes: &Vec<String>, volume: &str, default: &str) -> (r: Vec<String>)
    ensures
        text::texts(r@) == watch_roots(text::texts(prefixes@), volume@, default@),
{
    let mut out: Vec<String> = Vec::new();
    if prefixes.len() == 0 {
        let none = String::new();
        out.push(watch_root_for_volume(&none, volume, default));
        proof {
            assert(none@ =~= Seq::<char>::empty());
            assert(text::texts(out@) =~= watch_roots(text::texts(prefixes@), volume@, default@));
        }
        return out;
    }
    let mut i: usize = 0;
    while i < prefixes.len()
        invariant
            i <= prefixes.len(),
            out@.len() == i,
            forall|k: int|
                0 <= k < i ==> (#[trigger] out@[k])@ == watch_root(
                    prefixes@[k]@,
                    volume@,
                    default@,
                ),
        decreases prefixes.len() - i,
    {
        out.push(watch_root_for_volume(&prefixes[i], volume, default));
        i += 1;
    }
    proof {
        assert(text::texts(out@) =~= watch_roots(text::texts(prefixes@), volume@, default@));
    }
    out
}

/// The index is due to be written: `every_secs` seconds have passed since it last was. Times are in
/// nanoseconds.
pub fn save_due(last_save: u128, now: u128, every_secs: u64) -> (r: bool)
    ensures
        r == (now >= last_save && now - last_save >= every_secs * 1_000_000_000),
{
    now >= last_save && now - last_save >= every_secs as u128 * 1_000_000_000
}

/// The Windows default never reaches the watcher: a volume that is given as `C:` in any spelling
/// leads to the default root, unless the index names one.
pub proof fn law_drive_default_is_ignored(volume: Seq<char>)
    requires
        text::same_ignoring_case(text::trimmed(volume), "C:"@),
    ensures
        unix_volume(volume).len() == 0,
        scan_roots(volume).len() == 0,
{
}

/// Normalising twice is normalising once.
pub proof fn law_volume_stable(volume: Seq<char>)
    ensures
        unix_volume(unix_volume(volume)) == unix_volume(volume),
{
    text::law_trim_idempotent(volume);
    let e = Seq::<char>::empty();
    if unix_volume(volume).len() == 0 {
        assert(unix_volume(volume) =~= e);
        assert(text::trimmed(e) =~= e);
    }
}

/// What a volume says that is none: nothing but white space, or drive C of the other system.
pub open spec fn says_no_root(v: Seq<char>) -> bool {
    let t = text::trimmed(v);
    t.len() == 0 || text::same_ignoring_case(t, "C:"@) || text::same_ignoring_case(t, "C:\\"@)
}

/// A volume is watched below its own prefix where that is more than a slash, else below the volume
/// that was asked for, else below the default; without volumes one root is watched.
pub proof fn law_watched_roots(
    prefixes: Seq<Seq<char>>,
    volume: Seq<char>,
    default: Seq<char>,
    i: int,
)
    ensures
        ({
            let r = watch_roots(prefixes, volume, default);
            let asked = if says_no_root(volume) {
                default
            } else {
                text::trimmed(volume)
            };
            &&& prefixes.len() == 0 ==> r.len() == 1
            &&& prefixes.len() > 0 ==> r.len() == prefixes.len()
            &&& 0 <= i < prefixes.len() ==> {
                let own = text::trimmed(prefixes[i]);
                &&& own.len() > 1 ==> r[i] == own
                &&& own.len() == 0 ==> r[i] == asked
                &&& own == seq!['/'] ==> r[i] == asked
            }
            &&& prefixes.len() == 0 ==> r[0] == asked
        }),
{
    let none = Seq::<char>::empty();
    assert(text::trimmed(none).len() == 0);
}

/// The roots to scan are the pieces between commas, without white space and in their order; none
/// where no volume was said.
pub proof fn law_scanned_roots(volume: Seq<char>, k: int)
    ensures
        says_no_root(volume) ==> scan_roots(volume).len() == 0,
        !says_no_root(volume) ==> {
            let said = text::pieces(volume, ',').filter(
                |x: Seq<char>| text::trimmed(x).len() > 0,
            );
            &&& scan_roots(volume).len() == said.len()
            &&& 0 <= k < said.len() ==> scan_roots(volume)[k] == text::trimmed(said[k])
        },
{
    lemma_nonblank(text::pieces(volume, ','), k);
}

proof fn lemma_nonblank(parts: Seq<Seq<char>>, k: int)
    ensures
        ({
            let said = parts.filter(|x: Seq<char>| text::trimmed(x).len() > 0);
            &&& nonblank(parts).len() == said.len()
            &&& 0 <= k < said.len() ==> nonblank(parts)[k] == text::trimmed(said[k])
        }),
    decreases parts.len(),
{
    reveal(Seq::filter);
    if parts.len() > 0 {
        lemma_nonblank(parts.drop_last(), k);
    }
}

} // verus!
