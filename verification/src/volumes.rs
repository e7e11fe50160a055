//! Volume names: the forms that users write, the device and root paths that the system wants, and
//! the choice of the volumes to index.
use vstd::prelude::*;
use crate::text;

verus! {

/// A volume name without white space around it and without trailing backslashes.
pub open spec fn bare_name(volume: Seq<char>) -> Seq<char> {
    text::trimmed_end(text::trimmed(volume), '\\')
}

pub open spec fn ascii(c: char) -> bool {
    (c as u32) < 0x80
}

/// The name is one letter.
pub open spec fn is_letter(v: Seq<char>) -> bool {
    v.len() == 1 && text::ascii_letter(v[0])
}

/// The name is one ASCII character and a colon.
pub open spec fn is_drive(v: Seq<char>) -> bool {
    v.len() == 2 && ascii(v[0]) && v[1] == ':'
}

/// The device path of a volume: `C`, `C:` and `C:\` stand for the same device; a device path
/// stays as it is.
pub open spec fn device_path(volume: Seq<char>) -> Seq<char> {
    let v = bare_name(volume);
    if is_letter(v) {
        "\\\\.\\"@ + text::uppercased(v) + ":"@
    } else if is_drive(v) {
        "\\\\.\\"@ + text::uppercased(v)
    } else if text::begins_with(v, "\\\\.\\"@) {
        v
    } else {
        "\\\\.\\"@ + v
    }
}

/// The root path that volume queries want.
pub open spec fn info_root(volume: Seq<char>) -> Seq<char> {
    let v = bare_name(volume);
    if is_letter(v) {
        text::uppercased(v) + ":\\"@
    } else if is_drive(v) {
        text::uppercased(v) + "\\"@
    } else {
        v
    }
}

/// The folder at which a walk over the volume starts.
pub open spec fn folder_root(volume: Seq<char>) -> Seq<char> {
    let v = bare_name(volume);
    if is_letter(v) {
        text::uppercased(v) + ":\\"@
    } else {
        v + "\\"@
    }
}

fn bare(volume: &str) -> (r: String)
    ensures
        r@ == bare_name(volume@),
{
    let t = text::trim(volume);
    text::trim_end_of(&t, '\\')
}

fn letter_name(v: &str) -> (r: bool)
    ensures
        r == is_letter(v@),
{
    let cs = text::chars_of(v);
    cs.len() == 1 && text::is_ascii_letter(cs[0])
}

fn drive_name(v: &str) -> (r: bool)
    ensures
        r == is_drive(v@),
{
    let cs = text::chars_of(v);
    cs.len() == 2 && (cs[0] as u32) < 0x80 && cs[1] == ':'
}

/// The device path of a volume.
pub fn volume_device_path(volume: &str) -> (r: String)
    ensures
        r@ == device_path(volume@),
{
    let v = bare(volume);
    if letter_name(&v) {
        let mut out = text::copied("\\\\.\\");
        out.push_str(&text::to_upper(&v));
        out.push_str(":");
        out
    } else if drive_name(&v) {
        let mut out = text::copied("\\\\.\\");
        out.push_str(&text::to_upper(&v));
        out
    } else if text::starts_with(&v, "\\\\.\\") {
        v
    } else {
        let mut out = text::copied("\\\\.\\");
        out.push_str(&v);
        out
    }
}

/// The device path that a file table scan opens.
pub fn volume_path(volume: &str) -> (r: String)
    ensures
        r@ == device_path(volume@),
{
    volume_device_path(volume)
}

/// The device path that a raw file table read opens.
pub fn normalize_volume_path(volume: &str) -> (r: String)
    ensures
        r@ == device_path(volume@),
{
    volume_device_path(volume)
}

/// The root path for volume queries.
pub fn volume_root_for_info(volume: &str) -> (r: String)
    ensures
        r@ == info_root(volume@),
{
    let v = bare(volume);
    if letter_name(&v) {
        let mut out = text::to_upper(&v);
        out.push_str(":\\");
        out
    } else if drive_name(&v) {
        let mut out = text::to_upper(&v);
        out.push_str("\\");
        out
    } else {
        v
    }
}

/// The folder at which a walk over the volume starts.
pub fn volume_to_folder_root(vol: &str) -> (r: String)
    ensures
        r@ == folder_root(vol@),
{
    let v = bare(vol);
    if letter_name(&v) {
        let mut out = text::to_upper(&v);
        out.push_str(":\\");
        out
    } else {
        let mut out = v;
        out.push_str("\\");
        out
    }
}

/// The upper case drive letter that a volume name starts with.
pub open spec fn drive_letter(root: Seq<char>) -> Option<char> {
    let s = text::trimmed(root);
    if s.len() > 0 && text::ascii_letter(s[0]) {
        Some(text::upper(s[0]))
    } else {
        None
    }
}

pub fn volume_drive_letter(root: &str) -> (r: Option<u8>)
    ensures
        r == (match drive_letter(root@) {
            Some(c) => Some(c as u8),
            None => None,
        }),
{
    let t = text::trim(root);
    let cs = text::chars_of(&t);
    if cs.len() > 0 && text::is_ascii_letter(cs[0]) {
        Some(text::upper_char(cs[0]) as u8)
    } else {
        None
    }
}

/// The letter under which a volume is indexed: the first ASCII letter of its name, else `C`.
pub open spec fn index_letter(name: Seq<char>) -> char
    decreases name.len(),
{
    if name.len() == 0 {
        'C'
    } else if text::ascii_letter(name[0]) {
        text::upper(name[0])
    } else {
        index_letter(name.drop_first())
    }
}

pub fn index_letter_of(name: &str) -> (r: u8)
    ensures
        r == index_letter(name@) as u8,
{
    let cs = text::chars_of(name);
    let mut i: usize = 0;
    proof {
        assert(name@.skip(0) =~= name@);
    }
    while i < cs.len()
        invariant
            i <= cs.len(),
            cs@ == name@,
            index_letter(name@.skip(i as int)) == index_letter(name@),
        decreases cs.len() - i,
    {
        proof {
            assert(name@.skip(i as int)[0] == name@[i as int]);
            assert(name@.skip(i as int).drop_first() =~= name@.skip(i + 1));
        }
        if text::is_ascii_letter(cs[i]) {
            return text::upper_char(cs[i]) as u8;
        }
        i += 1;
    }
    67
}

proof fn lemma_bare_fixed(v: Seq<char>)
    requires
        v.len() > 0 ==> !text::white(v[0]) && !text::white(v.last()) && v.last() != '\\',
    ensures
        bare_name(v) == v,
{
    let w = |c: char| text::white(c);
    text::lemma_drop_while_is_suffix(v, w, 0);
    assert(v.subrange(0, v.len() as int) =~= v);
    text::lemma_drop_end_while_is_prefix(v, w, v.len() as int);
    text::lemma_drop_end_while_is_prefix(v, text::only('\\'), v.len() as int);
}

/// Naming a drive as `C`, `C:`, `C:\` or in lower case comes to the same device, root and folder.
pub proof fn law_drive_spellings(c: char)
    requires
        text::ascii_letter(c),
    ensures
        device_path(seq![c]) == "\\\\.\\"@ + seq![text::upper(c), ':'],
        device_path(seq![c, ':']) == "\\\\.\\"@ + seq![text::upper(c), ':'],
        device_path(seq![c, ':', '\\']) == "\\\\.\\"@ + seq![text::upper(c), ':'],
        info_root(seq![c]) == seq![text::upper(c), ':', '\\'],
        info_root(seq![c, ':']) == seq![text::upper(c), ':', '\\'],
        info_root(seq![c, ':', '\\']) == seq![text::upper(c), ':', '\\'],
        folder_root(seq![c]) == seq![text::upper(c), ':', '\\'],
        folder_root(seq![c, ':', '\\']) == seq![c, ':', '\\'],
{
    reveal_strlit("\\\\.\\");
    reveal_strlit(":");
    reveal_strlit(":\\");
    reveal_strlit("\\");
    let one = seq![c];
    let two = seq![c, ':'];
    let three = seq![c, ':', '\\'];
    lemma_bare_fixed(one);
    lemma_bare_fixed(two);
    let w = |d: char| text::white(d);
    text::lemma_drop_while_is_suffix(three, w, 0);
    assert(three.subrange(0, 3) =~= three);
    text::lemma_drop_end_while_is_prefix(three, w, 3);
    text::lemma_drop_end_while_is_prefix(three, text::only('\\'), 2);
    assert(three.subrange(0, 2) =~= two);
    assert(text::upper(':') == ':');
    assert(text::uppercased(one) =~= seq![text::upper(c)]);
    assert(text::uppercased(two) =~= seq![text::upper(c), ':']);
    assert(device_path(one) =~= "\\\\.\\"@ + seq![text::upper(c), ':']);
    assert(info_root(one) =~= seq![text::upper(c), ':', '\\']);
    assert(info_root(two) =~= seq![text::upper(c), ':', '\\']);
    assert(folder_root(one) =~= seq![text::upper(c), ':', '\\']);
    assert(folder_root(three) =~= three);
}

/// A device path that was made from a name is left as it is, where the bare name is neither empty
/// nor ends in white space.
pub proof fn law_device_path_stable(volume: Seq<char>)
    requires
        bare_name(volume).len() > 0,
        !text::white(bare_name(volume).last()),
    ensures
        device_path(device_path(volume)) == device_path(volume),
{
    reveal_strlit("\\\\.\\");
    reveal_strlit(":");
    let v = bare_name(volume);
    let d = device_path(volume);
    let p = "\\\\.\\"@;
    lemma_end_trimmed(text::trimmed(volume), '\\');
    assert(v.last() != '\\');
    assert(d.len() >= 5) by {
        if text::begins_with(v, p) {
            if v.len() == 4 {
                assert(v.subrange(0, 4)[3] == '\\');
                assert(v.last() == '\\');
            }
        }
    }
    assert(text::begins_with(d, p)) by {
        if is_letter(v) || is_drive(v) || !text::begins_with(v, p) {
            assert(d.subrange(0, 4) =~= p);
        }
    }
    assert(d[0] == '\\') by {
        assert(d.subrange(0, 4)[0] == p[0]);
    }
    assert(d.last() == v.last() || d.last() == ':' || d.last() == text::upper(v.last())) by {
        if is_letter(v) {
        } else if is_drive(v) {
            assert(text::uppercased(v).last() == text::upper(v.last()));
        } else {
        }
    }
    lemma_bare_fixed(d);
    assert(!is_letter(d));
    assert(!is_drive(d));
}

proof fn lemma_end_trimmed(s: Seq<char>, c: char)
    ensures
        text::trimmed_end(s, c).len() > 0 ==> text::trimmed_end(s, c).last() != c,
    decreases s.len(),
{
    if s.len() > 0 && s.last() == c {
        lemma_end_trimmed(s.drop_last(), c);
    }
}

// ---- which volumes to index ---------------------------------------------------------------

pub const DRIVE_REMOVABLE: u32 = 2;
pub const DRIVE_FIXED: u32 = 3;
pub const DRIVE_REMOTE: u32 = 4;
pub const DRIVE_CDROM: u32 = 5;
pub const DRIVE_RAMDISK: u32 = 6;

/// The letter with number `i`, with a colon.
pub open spec fn letter_colon(i: int) -> Seq<char> {
    seq![(65 + i) as char, ':']
}

/// The fixed and removable drives among the first `n` letters, by the type of each.
pub open spec fn local_drives(types: Seq<u32>, n: int) -> Seq<Seq<char>>
    decreases n,
{
    if n <= 0 {
        Seq::empty()
    } else if types[n - 1] == DRIVE_FIXED || types[n - 1] == DRIVE_REMOVABLE {
        local_drives(types, n - 1).push(letter_colon(n - 1))
    } else {
        local_drives(types, n - 1)
    }
}

fn letter_text(i: usize) -> (r: String)
    requires
        i < 26,
    ensures
        r@ == letter_colon(i as int),
{
    let mut out = String::new();
    out.push((65 + i as u8) as char);
    out.push(':');
    assert(out@ =~= letter_colon(i as int));
    out
}

/// The drives that can be indexed, in the order of their letters, from the type of each letter.
pub fn enumerate_local_drive_letters(types: &Vec<u32>) -> (r: Vec<String>)
    requires
        types@.len() == 26,
    ensures
        text::texts(r@) == local_drives(types@, 26),
{
    let mut out: Vec<String> = Vec::new();
    let mut i: usize = 0;
    proof {
        assert(text::texts(out@) =~= Seq::empty());
    }
    while i < 26
        invariant
            i <= 26,
            types@.len() == 26,
            text::texts(out@) == local_drives(types@, i as int),
        decreases 26 - i,
    {
        if types[i] == DRIVE_FIXED || types[i] == DRIVE_REMOVABLE {
            let ghost before = text::texts(out@);
            out.push(letter_text(i));
            proof {
                assert(text::texts(out@) =~= before.push(letter_colon(i as int)));
            }
        }
        i += 1;
    }
    out
}

/// The volumes to index: a list that was given, else a single volume, else every local drive;
/// `C:` where that leaves nothing.
pub open spec fn volume_list(
    volume: Option<Seq<char>>,
    volumes: Option<Seq<Seq<char>>>,
    local: Seq<Seq<char>>,
) -> Seq<Seq<char>> {
    match volumes {
        Some(vs) => if vs.len() == 0 {
            seq![
                match volume {
                    Some(v) => v,
                    None => "C:"@,
                },
            ]
        } else {
            vs
        },
        None => match volume {
            Some(v) => seq![v],
            None => if local.len() == 0 {
                seq!["C:"@]
            } else {
                local
            },
        },
    }
}

pub open spec fn opt_texts(v: Option<Vec<String>>) -> Option<Seq<Seq<char>>> {
    match v {
        Some(t) => Some(text::texts(t@)),
        None => None,
    }
}

pub fn resolve_volume_list(
    volume: Option<String>,
    volumes: Option<Vec<String>>,
    local: Vec<String>,
) -> (r: Vec<String>)
    ensures
        text::texts(r@) == volume_list(text::opt_view(volume), opt_texts(volumes), text::texts(local@)),
{
    let ghost want = volume_list(text::opt_view(volume), opt_texts(volumes), text::texts(local@));
    let mut out: Vec<String> = Vec::new();
    match volumes {
        Some(vs) => {
            if vs.len() > 0 {
                return vs;
            }
            match volume {
                Some(v) => {
                    out.push(v);
                },
                None => {
                    out.push(text::copied("C:"));
                },
            }
        },
        None => {
            match volume {
                Some(v) => {
                    out.push(v);
                },
                None => {
                    if local.len() > 0 {
                        return local;
                    }
                    out.push(text::copied("C:"));
                },
            }
        },
    }
    assert(text::texts(out@) =~= want);
    out
}

/// There is always a volume to index.
pub proof fn law_volume_list_nonempty(
    volume: Option<Seq<char>>,
    volumes: Option<Seq<Seq<char>>>,
    local: Seq<Seq<char>>,
)
    ensures
        volume_list(volume, volumes, local).len() >= 1,
{
}

/// How many volumes are scanned at a time: at least one, at most one per volume.
pub fn scan_threads(max_scan_threads: usize, volumes: usize) -> (r: usize)
    ensures
        1 <= r,
        r == (if max_scan_threads < 1 {
            1
        } else if volumes < 1 {
            1
        } else if max_scan_threads < volumes {
            max_scan_threads as int
        } else {
            volumes as int
        }),
{
    let wanted: usize = if max_scan_threads < 1 {
        1
    } else {
        max_scan_threads
    };
    let most: usize = if volumes < 1 {
        1
    } else {
        volumes
    };
    if wanted < most {
        wanted
    } else {
        most
    }
}

// ---- the drives of the settings page ------------------------------------------------------

/// What the system says of one drive letter.
pub struct DriveProbe {
    pub drive_type: u32,
    /// The file system name as the system wrote it into its buffer, where it could tell.
    pub filesystem: Option<Vec<u16>>,
}

/// A drive as the settings page shows it.
#[derive(Debug)]
pub struct DriveInfo {
    pub letter: String,
    pub path: String,
    pub filesystem: String,
    pub drive_type: String,
    pub is_ntfs: bool,
    pub can_open_volume: bool,
}

pub struct DriveInfoView {
    pub letter: Seq<char>,
    pub path: Seq<char>,
    pub filesystem: Seq<char>,
    pub drive_type: Seq<char>,
    pub is_ntfs: bool,
    pub can_open_volume: bool,
}

impl View for DriveInfo {
    type V = DriveInfoView;

    open spec fn view(&self) -> DriveInfoView {
        DriveInfoView {
            letter: self.letter@,
            path: self.path@,
            filesystem: self.filesystem@,
            drive_type: self.drive_type@,
            is_ntfs: self.is_ntfs,
            can_open_volume: self.can_open_volume,
        }
    }
}

pub open spec fn drive_type_name(t: u32) -> Option<Seq<char>> {
    if t == DRIVE_FIXED {
        Some("fixed"@)
    } else if t == DRIVE_REMOVABLE {
        Some("removable"@)
    } else if t == DRIVE_REMOTE {
        Some("remote"@)
    } else if t == DRIVE_CDROM {
        Some("cdrom"@)
    } else if t == DRIVE_RAMDISK {
        Some("ramdisk"@)
    } else {
        None
    }
}

/// The file system name without the zeros that fill its buffer; empty where it is not known.
pub open spec fn filesystem_name(p: DriveProbe) -> Seq<char> {
    match p.filesystem {
        Some(u) => text::trimmed_end(crate::utf16::decoded(u@), '\0'),
        None => Seq::empty(),
    }
}

/// The drive with number `i`; nothing where it has no usable type. Only an NTFS volume on a fixed
/// or removable drive can be opened for indexing.
pub open spec fn drive_info(p: DriveProbe, i: int) -> Option<DriveInfoView> {
    match drive_type_name(p.drive_type) {
        None => None,
        Some(t) => {
            let fs = filesystem_name(p);
            let ntfs = text::same_ignoring_case(fs, "NTFS"@);
            Some(
                DriveInfoView {
                    letter: letter_colon(i),
                    path: letter_colon(i).push('\\'),
                    filesystem: fs,
                    drive_type: t,
                    is_ntfs: ntfs,
                    can_open_volume: ntfs && (p.drive_type == DRIVE_FIXED || p.drive_type
                        == DRIVE_REMOVABLE),
                },
            )
        },
    }
}

/// The drives among the first `n` letters whose bit is set in the mask.
pub open spec fn drive_list(mask: u32, probes: Seq<DriveProbe>, n: int) -> Seq<DriveInfoView>
    decreases n,
{
    if n <= 0 {
        Seq::empty()
    } else {
        let rest = drive_list(mask, probes, n - 1);
        if mask & (1u32 << ((n - 1) as u32)) == 0 {
            rest
        } else {
            match drive_info(probes[n - 1], n - 1) {
                Some(d) => rest.push(d),
                None => rest,
            }
        }
    }
}

pub open spec fn drive_views(v: Seq<DriveInfo>) -> Seq<DriveInfoView> {
    v.map_values(|d: DriveInfo| d@)
}

fn name_of_type(t: u32) -> (r: Option<String>)
    ensures
        text::opt_view(r) == drive_type_name(t),
{
    if t == DRIVE_FIXED {
        Some(text::copied("fixed"))
    } else if t == DRIVE_REMOVABLE {
        Some(text::copied("removable"))
    } else if t == DRIVE_REMOTE {
        Some(text::copied("remote"))
    } else if t == DRIVE_CDROM {
        Some(text::copied("cdrom"))
    } else if t == DRIVE_RAMDISK {
        Some(text::copied("ramdisk"))
    } else {
        None
    }
}

/// The drives of the machine, from the mask of present letters and what the system says of each.
pub fn list_drives(mask: u32, probes: &Vec<DriveProbe>) -> (r: Vec<DriveInfo>)
    requires
        probes@.len() == 26,
    ensures
        drive_views(r@) == drive_list(mask, probes@, 26),
{
    let mut out: Vec<DriveInfo> = Vec::new();
    let mut i: usize = 0;
    proof {
        assert(drive_views(out@) =~= Seq::empty());
    }
    while i < 26
        invariant
            i <= 26,
            probes@.len() == 26,
            drive_views(out@) == drive_list(mask, probes@, i as int),
        decreases 26 - i,
    {
        let bit: u32 = i as u32;
        if mask & (1u32 << bit) != 0 {
            match name_of_type(probes[i].drive_type) {
                Some(t) => {
                    let fs = match &probes[i].filesystem {
                        Some(u) => text::trim_end_of(&crate::utf16::from_wide(u), '\0'),
                        None => String::new(),
                    };
                    let ntfs = text::equals_ignoring_case(&fs, "NTFS");
                    let open = ntfs && (probes[i].drive_type == DRIVE_FIXED
                        || probes[i].drive_type == DRIVE_REMOVABLE);
                    let mut path = letter_text(i);
                    path.push('\\');
                    let d = DriveInfo {
                        letter: letter_text(i),
                        path,
                        filesystem: fs,
                        drive_type: t,
                        is_ntfs: ntfs,
                        can_open_volume: open,
                    };
                    let ghost dv = d@;
                    let ghost before = drive_views(out@);
                    out.push(d);
                    proof {
                        assert(fs@ =~= filesystem_name(probes@[i as int]));
                        assert(drive_info(probes@[i as int], i as int) == Some(dv));
                        assert(drive_views(out@) =~= before.push(dv));
                    }
                },
                None => {},
            }
        }
        i += 1;
    }
    out
}

/// The drives to scan are the fixed and the removable ones, each under its own letter.
pub proof fn law_local_drives(types: Seq<u32>, n: int, i: int)
    requires
        0 <= i < n <= types.len(),
        n <= 26,
    ensures
        local_drives(types, n).contains(letter_colon(i)) <==> types[i] == 3 || types[i] == 2,
        forall|k: int|
            0 <= k < local_drives(types, n).len() ==> (#[trigger] local_drives(types, n)[k]).len() == 2,
    decreases n,
{
    let all = local_drives(types, n);
    let rest = local_drives(types, n - 1);
    if i < n - 1 {
        law_local_drives(types, n - 1, i);
        if rest.contains(letter_colon(i)) {
            let k = choose|k: int| 0 <= k < rest.len() && rest[k] == letter_colon(i);
            assert(all[k] == letter_colon(i));
        }
        if all.contains(letter_colon(i)) {
            let k = choose|k: int| 0 <= k < all.len() && all[k] == letter_colon(i);
            if k < rest.len() {
                assert(rest[k] == letter_colon(i));
            } else {
                assert(letter_colon(n - 1)[0] != letter_colon(i)[0]);
            }
        }
    } else {
        lemma_drives_below(types, n - 1, i);
        if all.len() > rest.len() {
            assert(all[rest.len() as int] == letter_colon(i));
        }
    }
}

proof fn lemma_drives_below(types: Seq<u32>, n: int, i: int)
    requires
        0 <= n <= i < 26,
        n <= types.len(),
    ensures
        !local_drives(types, n).contains(letter_colon(i)),
        forall|k: int|
            0 <= k < local_drives(types, n).len() ==> (#[trigger] local_drives(types, n)[k]).len() == 2,
    decreases n,
{
    if n > 0 {
        lemma_drives_below(types, n - 1, i);
        let all = local_drives(types, n);
        let rest = local_drives(types, n - 1);
        if all.contains(letter_colon(i)) {
            let k = choose|k: int| 0 <= k < all.len() && all[k] == letter_colon(i);
            if k < rest.len() {
                assert(rest[k] == letter_colon(i));
            } else {
                assert(letter_colon(n - 1)[0] != letter_colon(i)[0]);
            }
        }
    }
}

/// A drive is shown under its letter with its file system and kind; it can be scanned where it is a
/// fixed or removable drive with NTFS.
pub proof fn law_drive_info(p: DriveProbe, i: int)
    ensures
        drive_info(p, i) is Some <==> 2 <= p.drive_type <= 6,
        drive_info(p, i) matches Some(d) ==> {
            &&& d.letter == letter_colon(i)
            &&& d.path == letter_colon(i).push('\\')
            &&& d.filesystem == filesystem_name(p)
            &&& d.is_ntfs == text::same_ignoring_case(filesystem_name(p), "NTFS"@)
            &&& d.can_open_volume <==> d.is_ntfs && (p.drive_type == 2 || p.drive_type == 3)
            &&& p.drive_type == 2 ==> d.drive_type == "removable"@
            &&& p.drive_type == 3 ==> d.drive_type == "fixed"@
            &&& p.drive_type == 4 ==> d.drive_type == "remote"@
            &&& p.drive_type == 5 ==> d.drive_type == "cdrom"@
            &&& p.drive_type == 6 ==> d.drive_type == "ramdisk"@
        },
{
}

/// The volumes that were listed win over the one that was named, that over the drives of the system,
/// and without any of them it is drive C.
pub proof fn law_volume_list(v: Seq<char>, vs: Seq<Seq<char>>, local: Seq<Seq<char>>)
    ensures
        vs.len() > 0 ==> volume_list(Some(v), Some(vs), local) == vs && volume_list(
            None,
            Some(vs),
            local,
        ) == vs,
        volume_list(Some(v), None, local) == seq![v],
        local.len() > 0 ==> volume_list(None, None, local) == local,
        local.len() == 0 ==> volume_list(None, None, local) == seq!["C:"@],
        volume_list(Some(v), Some(Seq::empty()), local) == seq![v],
        volume_list(None, Some(Seq::empty()), local) == seq!["C:"@],
{
}

/// The letter of an index is the first letter of the volume's name, as a capital.
pub proof fn law_index_letter(name: Seq<char>, i: int)
    requires
        0 <= i < name.len(),
        text::ascii_letter(name[i]),
        forall|j: int| 0 <= j < i ==> !text::ascii_letter(#[trigger] name[j]),
    ensures
        index_letter(name) == text::upper(name[i]),
    decreases name.len(),
{
    if i > 0 {
        let t = name.drop_first();
        assert(!text::ascii_letter(name[0]));
        assert forall|j: int| 0 <= j < i - 1 implies !text::ascii_letter(#[trigger] t[j]) by {
            assert(t[j] == name[j + 1]);
        }
        law_index_letter(t, i - 1);
    }
}

/// The letter of a drive is the first of its text, as a capital, where that is a letter.
pub proof fn law_letter_of_a_drive(root: Seq<char>)
    ensures
        ({
            let t = text::trimmed(root);
            &&& t.len() == 0 ==> drive_letter(root) is None
            &&& t.len() > 0 && 'A' <= t[0] && t[0] <= 'Z' ==> drive_letter(root) == Some(t[0])
            &&& t.len() > 0 && 'a' <= t[0] && t[0] <= 'z' ==> (drive_letter(root) matches Some(c)
                && c as int == t[0] as int - 32)
            &&& t.len() > 0 && !text::ascii_letter(t[0]) ==> drive_letter(root) is None
        }),
{
}

/// The list of drives holds each drive whose bit is set and whose kind is known, and no other.
pub proof fn law_listed_drives(mask: u32, probes: Seq<DriveProbe>, n: int, d: DriveInfoView)
    requires
        0 <= n <= 26,
        n <= probes.len(),
    ensures
        drive_list(mask, probes, n).contains(d) <==> exists|i: int|
            0 <= i < n && mask & (1u32 << (i as u32)) != 0 && #[trigger] drive_info(probes[i], i)
                == Some(d),
    decreases n,
{
    let all = drive_list(mask, probes, n);
    if n > 0 {
        let rest = drive_list(mask, probes, n - 1);
        law_listed_drives(mask, probes, n - 1, d);
        if all.contains(d) && !rest.contains(d) {
            let k = choose|k: int| 0 <= k < all.len() && all[k] == d;
            if k < rest.len() {
                assert(rest[k] == d);
            }
            assert(drive_info(probes[n - 1], n - 1) == Some(d));
        }
        if rest.contains(d) {
            let k = choose|k: int| 0 <= k < rest.len() && rest[k] == d;
            assert(all[k] == d);
        }
        if mask & (1u32 << ((n - 1) as u32)) != 0 && drive_info(probes[n - 1], n - 1) == Some(d) {
            assert(all[rest.len() as int] == d);
        }
    }
}

} // verus!
