//! Finding and starting the system's preview handler for a file: the registry keys in the order
//! of the Explorer, the ways to create the handler, and the ways to hand it the file.
use vstd::prelude::*;
use crate::clsid::{self, Clsid, ClsidView};
use crate::paths::{self, PathStyle};
use crate::text;
use crate::utf16;

verus! {

/// Below this key a file type names its preview handler.
pub open spec fn handler_key() -> Seq<char> {
    "shellex\\{8895b1c6-b41f-4c1c-a562-0d564250836f}"@
}

/// COM is busy; a short wait often helps.
pub const RPC_E_SERVERCALL_RETRYLATER: u32 = 0x8001_010A;

// ---- the registry -------------------------------------------------------------------------

/// The text in a value: up to its end mark, without zeros at its end and white space around it.
pub open spec fn value_text(buf: Seq<u16>, len_bytes: u32) -> Seq<char> {
    let n = if len_bytes / 2 > 0 {
        len_bytes as int / 2 - 1
    } else {
        0
    };
    let m = if n < buf.len() {
        n
    } else {
        buf.len() as int
    };
    text::trimmed(text::trimmed_end(utf16::decoded(buf.take(m)), '\0'))
}

/// The default value of a key from what the system wrote into the buffer: nothing where there is
/// no text.
pub fn registry_default(buf: &[u16], len_bytes: u32) -> (r: Option<String>)
    ensures
        if len_bytes == 0 || value_text(buf@, len_bytes).len() == 0 {
            r is None
        } else {
            r matches Some(s) && s@ == value_text(buf@, len_bytes)
        },
{
    if len_bytes == 0 {
        return None;
    }
    let half: usize = (len_bytes / 2) as usize;
    let n: usize = if half > 0 {
        half - 1
    } else {
        0
    };
    let m: usize = if n < buf.len() {
        n
    } else {
        buf.len()
    };
    let mut head: Vec<u16> = Vec::new();
    let mut i: usize = 0;
    while i < m
        invariant
            i <= m <= buf@.len(),
            head@ == buf@.take(i as int),
        decreases m - i,
    {
        head.push(buf[i]);
        i += 1;
        assert(head@ =~= buf@.take(i as int));
    }
    let s = utf16::from_wide(head.as_slice());
    let s = text::trim_end_of(&s, '\0');
    let s = text::trim(&s);
    if s.as_str().is_empty() {
        None
    } else {
        Some(s)
    }
}

/// The default values of some keys.
#[derive(Debug)]
pub struct RegDefault {
    pub key: String,
    pub value: String,
}

pub open spec fn reg_view(reg: Seq<RegDefault>) -> Seq<(Seq<char>, Seq<char>)> {
    reg.map_values(|d: RegDefault| (d.key@, d.value@))
}

/// The default value of a key.
pub open spec fn default_of(reg: Seq<(Seq<char>, Seq<char>)>, key: Seq<char>) -> Option<Seq<char>>
    decreases reg.len(),
{
    if reg.len() == 0 {
        None
    } else if reg[0].0 == key {
        Some(reg[0].1)
    } else {
        default_of(reg.drop_first(), key)
    }
}

fn look_up<'a>(reg: &'a Vec<RegDefault>, key: &str) -> (r: Option<&'a String>)
    ensures
        match r {
            Some(v) => default_of(reg_view(reg@), key@) == Some(v@),
            None => default_of(reg_view(reg@), key@) is None,
        },
{
    let ghost all = reg_view(reg@);
    let mut i: usize = 0;
    assert(all.skip(0) =~= all);
    while i < reg.len()
        invariant
            i <= reg.len(),
            all == reg_view(reg@),
            default_of(all, key@) == default_of(all.skip(i as int), key@),
        decreases reg.len() - i,
    {
        assert(all.skip(i as int)[0] == (reg@[i as int].key@, reg@[i as int].value@));
        if text::same_text(&reg[i].key, key) {
            return Some(&reg[i].value);
        }
        assert(all.skip(i as int).drop_first() =~= all.skip(i + 1));
        i += 1;
    }
    None
}

/// The key below which a type, an extension or an association names its handler.
pub open spec fn below(prefix: Seq<char>, key: Seq<char>) -> Seq<char> {
    prefix + key + "\\"@ + handler_key()
}

pub open spec fn clsid_at(reg: Seq<(Seq<char>, Seq<char>)>, key: Seq<char>) -> Option<ClsidView> {
    match default_of(reg, key) {
        Some(v) => clsid::parsed(v),
        None => None,
    }
}

/// The handler for an extension: of the extension itself, else of the type that it names, else
/// of its association. An entry that is no identifier counts as none.
pub open spec fn handler_of(
    reg: Seq<(Seq<char>, Seq<char>)>,
    prefix: Seq<char>,
    ext: Seq<char>,
) -> Option<ClsidView> {
    let dot = "."@ + ext;
    let direct = clsid_at(reg, below(prefix, dot));
    let by_type = match default_of(reg, prefix + dot) {
        Some(t) => clsid_at(reg, below(prefix, t)),
        None => None,
    };
    if direct is Some {
        direct
    } else if by_type is Some {
        by_type
    } else {
        clsid_at(reg, below(prefix, "SystemFileAssociations\\"@ + dot))
    }
}

/// The handler for a path; a path without an extension has none.
pub open spec fn handler_for(
    reg: Seq<(Seq<char>, Seq<char>)>,
    prefix: Seq<char>,
    path: Seq<char>,
) -> Option<ClsidView> {
    match paths::extension_of(PathStyle::Windows, path) {
        Some(e) if e.len() > 0 => handler_of(reg, prefix, text::lowercased(e)),
        _ => None,
    }
}

fn below_key(prefix: &str, key: &str) -> (r: String)
    ensures
        r@ == below(prefix@, key@),
{
    let mut s = text::copied(prefix);
    s.push_str(key);
    s.push_str("\\");
    s.push_str("shellex\\{8895b1c6-b41f-4c1c-a562-0d564250836f}");
    s
}

fn id_at(reg: &Vec<RegDefault>, key: &str) -> (r: Option<Clsid>)
    ensures
        clsid::id_view(r) == clsid_at(reg_view(reg@), key@),
{
    match look_up(reg, key) {
        Some(v) => clsid::parse_clsid(v),
        None => None,
    }
}

fn find_handler(reg: &Vec<RegDefault>, prefix: &str, path: &str) -> (r: Option<Clsid>)
    ensures
        clsid::id_view(r) == handler_for(reg_view(reg@), prefix@, path@),
{
    let ext = match paths::extension(PathStyle::Windows, path) {
        Some(e) => e,
        None => {
            return None;
        },
    };
    if ext.as_str().is_empty() {
        return None;
    }
    let mut dot = text::copied(".");
    dot.push_str(&text::to_lower(&ext));
    let direct = id_at(reg, &below_key(prefix, &dot));
    if direct.is_some() {
        return direct;
    }
    let mut type_key = text::copied(prefix);
    type_key.push_str(&dot);
    match look_up(reg, &type_key) {
        Some(t) => {
            let by_type = id_at(reg, &below_key(prefix, t));
            if by_type.is_some() {
                return by_type;
            }
        },
        None => {},
    }
    let mut assoc = text::copied("SystemFileAssociations\\");
    assoc.push_str(&dot);
    id_at(reg, &below_key(prefix, &assoc))
}

/// The handler of the user's view of the registry.
pub fn find_preview_handler_clsid(path: &str, reg: &Vec<RegDefault>) -> (r: Option<Clsid>)
    ensures
        clsid::id_view(r) == handler_for(reg_view(reg@), Seq::empty(), path@),
{
    let none = String::new();
    assert(none@ =~= Seq::empty());
    find_handler(reg, none.as_str(), path)
}

/// The handler of the machine, which no user can replace.
pub fn find_preview_handler_clsid_hklm(path: &str, reg: &Vec<RegDefault>) -> (r: Option<Clsid>)
    ensures
        clsid::id_view(r) == handler_for(reg_view(reg@), "SOFTWARE\\Classes\\"@, path@),
{
    find_handler(reg, "SOFTWARE\\Classes\\", path)
}

/// The machine's handler is worth trying only where it is another one.
pub fn fallback_handler(primary: &Clsid, machine: Option<Clsid>) -> (r: Option<Clsid>)
    ensures
        clsid::id_view(r) == (match clsid::id_view(machine) {
            Some(m) if m != primary@ => Some(m),
            _ => None,
        }),
{
    match machine {
        Some(m) => {
            proof {
                clsid::law_text_tells_identifiers_apart(m, *primary);
            }
            if text::same_text(&clsid::format_clsid(&m), &clsid::format_clsid(primary)) {
                None
            } else {
                Some(m)
            }
        },
        None => None,
    }
}

/// The key of a class, or one below it.
pub fn class_key(id: &str, sub: &str) -> (r: String)
    ensures
        r@ == (if sub@.len() == 0 {
            "CLSID\\"@ + id@
        } else {
            "CLSID\\"@ + id@ + "\\"@ + sub@
        }),
{
    let mut s = text::copied("CLSID\\");
    s.push_str(id);
    if !sub.is_empty() {
        s.push_str("\\");
        s.push_str(sub);
    }
    s
}

/// Which keys of a class are there, in the view of 64-bit or of 32-bit programs.
#[derive(Debug, Clone, Copy, PartialEq, Eq, Structural)]
pub struct ClassKeys {
    pub class: bool,
    pub inproc_server: bool,
    pub local_server: bool,
    pub inproc_handler: bool,
}

#[derive(Debug, Clone, Copy, PartialEq, Eq, Structural)]
pub struct ClsidInfo {
    pub has_64: bool,
    pub has_32: bool,
    pub has_inproc_server: bool,
    pub has_local_server: bool,
    pub handler_only: bool,
}

/// What is known of a class from its keys in the two views.
pub open spec fn class_info(in_64: ClassKeys, in_32: ClassKeys) -> ClsidInfo {
    let inproc = in_64.inproc_server || in_32.inproc_server;
    let local = in_64.local_server || in_32.local_server;
    ClsidInfo {
        has_64: in_64.class,
        has_32: in_32.class,
        has_inproc_server: inproc,
        has_local_server: local,
        handler_only: (in_64.inproc_handler || in_32.inproc_handler) && !inproc && !local,
    }
}

/// Each view says whether it knows the class; a server of either kind in either view counts, and
/// keeps the class from having nothing but a handler.
pub proof fn law_keys_of_a_class(a: ClassKeys, b: ClassKeys)
    ensures
        class_info(a, b).has_64 == a.class,
        class_info(a, b).has_32 == b.class,
        a.inproc_server || b.inproc_server <==> class_info(a, b).has_inproc_server,
        a.local_server || b.local_server <==> class_info(a, b).has_local_server,
        a.inproc_server || a.local_server || b.inproc_server || b.local_server ==> !class_info(
            a,
            b,
        ).handler_only,
        !(a.inproc_server || a.local_server || b.inproc_server || b.local_server) ==> class_info(
            a,
            b,
        ).handler_only == (a.inproc_handler || b.inproc_handler),
{
}

/// What a class offers: servers count in either view; a class with nothing but a handler needs
/// another process to load it.
pub fn probe_clsid(in_64: ClassKeys, in_32: ClassKeys) -> (r: ClsidInfo)
    ensures
        r == class_info(in_64, in_32),
        r.has_64 == in_64.class,
        r.has_32 == in_32.class,
        r.has_inproc_server == (in_64.inproc_server || in_32.inproc_server),
        r.has_local_server == (in_64.local_server || in_32.local_server),
        r.handler_only == (!r.has_inproc_server && !r.has_local_server && (in_64.inproc_handler
            || in_32.inproc_handler)),
{
    let has_inproc_server = in_64.inproc_server || in_32.inproc_server;
    let has_local_server = in_64.local_server || in_32.local_server;
    ClsidInfo {
        has_64: in_64.class,
        has_32: in_32.class,
        has_inproc_server,
        has_local_server,
        handler_only: !has_inproc_server && !has_local_server && (in_64.inproc_handler
            || in_32.inproc_handler),
    }
}

// ---- creating the handler -----------------------------------------------------------------

/// In this process.
pub const CTX_INPROC: u32 = 0x1;

pub const CTX_INPROC_32: u32 = 0x4_0001;

pub const CTX_INPROC_64: u32 = 0x8_0001;

/// In a process of its own.
pub const CTX_LOCAL: u32 = 0x4;

pub const CTX_LOCAL_32: u32 = 0x4_0004;

pub const CTX_LOCAL_64: u32 = 0x8_0004;

/// How often a context is tried while COM is busy.
pub const CONTEXT_TRIES: u32 = 6;

/// Between two tries, in milliseconds.
pub const BUSY_PAUSE_MS: u64 = 80;

pub open spec fn one_if(b: bool, ctx: u32) -> Seq<u32> {
    if b {
        seq![ctx]
    } else {
        Seq::empty()
    }
}

/// The contexts to try, in this order. A process of its own comes first, so that a handler that
/// crashes takes nothing else down; handlers that only run in this process are reached last. A
/// class with nothing but a handler never runs in this process.
pub open spec fn contexts(info: ClsidInfo) -> Seq<u32> {
    if info.handler_only {
        one_if(info.has_32, CTX_LOCAL_32) + one_if(info.has_64, CTX_LOCAL_64) + seq![CTX_LOCAL]
    } else {
        one_if(info.has_64, CTX_LOCAL_64) + one_if(info.has_32, CTX_LOCAL_32) + seq![CTX_LOCAL]
            + one_if(info.has_64, CTX_INPROC_64) + one_if(info.has_32, CTX_INPROC_32) + seq![
            CTX_INPROC,
        ]
    }
}

fn push_if(v: &mut Vec<u32>, b: bool, ctx: u32)
    ensures
        final(v)@ == old(v)@ + one_if(b, ctx),
{
    if b {
        v.push(ctx);
    }
    assert(v@ =~= old(v)@ + one_if(b, ctx));
}

pub fn create_contexts(info: ClsidInfo) -> (r: Vec<u32>)
    ensures
        r@ == contexts(info),
{
    let mut v: Vec<u32> = Vec::new();
    if info.handler_only {
        push_if(&mut v, info.has_32, CTX_LOCAL_32);
        push_if(&mut v, info.has_64, CTX_LOCAL_64);
        push_if(&mut v, true, CTX_LOCAL);
    } else {
        push_if(&mut v, info.has_64, CTX_LOCAL_64);
        push_if(&mut v, info.has_32, CTX_LOCAL_32);
        push_if(&mut v, true, CTX_LOCAL);
        push_if(&mut v, info.has_64, CTX_INPROC_64);
        push_if(&mut v, info.has_32, CTX_INPROC_32);
        push_if(&mut v, true, CTX_INPROC);
    }
    assert(v@ =~= contexts(info));
    v
}

pub open spec fn in_process(ctx: u32) -> bool {
    ctx == CTX_INPROC || ctx == CTX_INPROC_32 || ctx == CTX_INPROC_64
}

/// Whatever a class offers, there is something to try, nothing is tried twice, and no context in
/// this process comes before one with a process of its own.
pub proof fn law_own_process_first(info: ClsidInfo, i: int, j: int)
    requires
        0 <= i < j < contexts(info).len(),
    ensures
        contexts(info)[i] != contexts(info)[j],
        in_process(contexts(info)[i]) ==> in_process(contexts(info)[j]),
        info.handler_only ==> !in_process(contexts(info)[i]) && !in_process(contexts(info)[j]),
{
}

pub open spec fn busy(code: u32) -> bool {
    code == RPC_E_SERVERCALL_RETRYLATER
}

pub fn is_com_server_busy(code: u32) -> (r: bool)
    ensures
        r == busy(code),
{
    code == RPC_E_SERVERCALL_RETRYLATER
}

/// The way through the contexts.
#[derive(Debug)]
pub struct CreateRun {
    pub contexts: Vec<u32>,
    pub at: usize,
    pub tries: u32,
}

/// After a failure.
#[derive(Debug)]
pub enum CreateNext {
    /// The same context again, after a pause of so many milliseconds.
    Again(u64),
    NextContext,
    GiveUp(String),
}

impl CreateRun {
    pub open spec fn wf(&self) -> bool {
        &&& self.at < self.contexts@.len()
        &&& self.contexts@.len() <= 6
        &&& self.tries < CONTEXT_TRIES
    }

    /// How many failures there can still be.
    pub open spec fn left(&self) -> int {
        (self.contexts@.len() - self.at) * CONTEXT_TRIES - self.tries
    }

    pub fn new(info: ClsidInfo) -> (r: CreateRun)
        ensures
            r.wf(),
            r.contexts@ == contexts(info),
            r.at == 0,
            r.tries == 0,
    {
        CreateRun { contexts: create_contexts(info), at: 0, tries: 0 }
    }

    /// The context to try.
    pub fn context(&self) -> (r: u32)
        requires
            self.wf(),
        ensures
            r == self.contexts@[self.at as int],
    {
        self.contexts[self.at]
    }

    /// The context failed with this code: while COM is busy it is tried again, up to the limit;
    /// then comes the next one. The error of the last one is the error of all.
    pub fn on_failure(&mut self, code: u32, message: &str) -> (r: CreateNext)
        requires
            old(self).wf(),
        ensures
            final(self).wf(),
            final(self).contexts == old(self).contexts,
            if busy(code) && old(self).tries < CONTEXT_TRIES - 1 {
                &&& r == CreateNext::Again(BUSY_PAUSE_MS)
                &&& final(self).at == old(self).at
                &&& final(self).tries == old(self).tries + 1
            } else if old(self).at + 1 < old(self).contexts@.len() {
                &&& r == CreateNext::NextContext
                &&& final(self).at == old(self).at + 1
                &&& final(self).tries == 0
            } else {
                &&& r matches CreateNext::GiveUp(e) && e@ == "ctx=0x"@ + clsid::short_hex(
                    old(self).contexts@[old(self).at as int] as nat,
                ) + ": "@ + message@
                &&& *final(self) == *old(self)
            },
            r is GiveUp || final(self).left() < old(self).left(),
    {
        if code == RPC_E_SERVERCALL_RETRYLATER && self.tries < CONTEXT_TRIES - 1 {
            self.tries = self.tries + 1;
            return CreateNext::Again(BUSY_PAUSE_MS);
        }
        if self.at + 1 < self.contexts.len() {
            self.at = self.at + 1;
            self.tries = 0;
            return CreateNext::NextContext;
        }
        let mut e = text::copied("ctx=0x");
        e.push_str(&clsid::short_hex_text(self.contexts[self.at]));
        e.push_str(": ");
        e.push_str(message);
        CreateNext::GiveUp(e)
    }
}

// ---- handing over the file ----------------------------------------------------------------

/// The ways to hand a file to a handler, in this order.
#[derive(Debug, Clone, Copy, PartialEq, Eq, Structural)]
pub enum InitWay {
    Stream,
    File,
    Item,
    PersistFile,
}

/// Where a way failed: the handler does not have it, the file could not be wrapped for it, or the
/// handler refused.
#[derive(Debug, Clone, Copy, PartialEq, Eq, Structural)]
pub enum InitFault {
    Cast,
    Wrap,
    Refused,
}

pub open spec fn next_way(way: InitWay) -> Option<InitWay> {
    match way {
        InitWay::Stream => Some(InitWay::File),
        InitWay::File => Some(InitWay::Item),
        InitWay::Item => Some(InitWay::PersistFile),
        InitWay::PersistFile => None,
    }
}

/// What is said of a failure. Only streams and items are wrapped.
pub open spec fn fault_head(way: InitWay, fault: InitFault) -> Seq<char> {
    match (way, fault) {
        (InitWay::Stream, InitFault::Cast) => "cast IInitializeWithStream: "@,
        (InitWay::Stream, InitFault::Wrap) => "SHCreateStreamOnFileEx: "@,
        (InitWay::Stream, InitFault::Refused) => "Stream.Initialize: "@,
        (InitWay::File, InitFault::Cast) => "cast IInitializeWithFile: "@,
        (InitWay::File, _) => "File.Initialize: "@,
        (InitWay::Item, InitFault::Cast) => "cast IInitializeWithItem: "@,
        (InitWay::Item, InitFault::Wrap) => "SHCreateItemFromParsingName: "@,
        (InitWay::Item, InitFault::Refused) => "Item.Initialize: "@,
        (InitWay::PersistFile, InitFault::Cast) => "cast IPersistFile: "@,
        (InitWay::PersistFile, _) => "IPersistFile.Load: "@,
    }
}

fn fault_text(way: InitWay, fault: InitFault) -> (r: &'static str)
    ensures
        r@ == fault_head(way, fault),
{
    match way {
        InitWay::Stream => match fault {
            InitFault::Cast => "cast IInitializeWithStream: ",
            InitFault::Wrap => "SHCreateStreamOnFileEx: ",
            InitFault::Refused => "Stream.Initialize: ",
        },
        InitWay::File => match fault {
            InitFault::Cast => "cast IInitializeWithFile: ",
            _ => "File.Initialize: ",
        },
        InitWay::Item => match fault {
            InitFault::Cast => "cast IInitializeWithItem: ",
            InitFault::Wrap => "SHCreateItemFromParsingName: ",
            InitFault::Refused => "Item.Initialize: ",
        },
        InitWay::PersistFile => match fault {
            InitFault::Cast => "cast IPersistFile: ",
            _ => "IPersistFile.Load: ",
        },
    }
}

/// The failures so far, and the way that is tried.
#[derive(Debug)]
pub struct InitRun {
    pub way: InitWay,
    pub errors: Vec<String>,
}

impl InitRun {
    pub fn new() -> (r: InitRun)
        ensures
            r.way == InitWay::Stream,
            r.errors@.len() == 0,
    {
        InitRun { way: InitWay::Stream, errors: Vec::new() }
    }

    /// The way failed: the next is tried; after the last one all failures are reported.
    pub fn on_failure(&mut self, fault: InitFault, error: &str) -> (r: Option<String>)
        ensures
            text::texts(final(self).errors@) == text::texts(old(self).errors@).push(
                fault_head(old(self).way, fault) + error@,
            ),
            match next_way(old(self).way) {
                Some(w) => r is None && final(self).way == w,
                None => final(self).way == old(self).way && r is Some && r->0@
                    == "预览处理器拒绝所有 Initialize 接口: ["@ + text::joined(
                    text::texts(final(self).errors@),
                    "; "@,
                ) + "]"@,
            },
    {
        let mut e = text::copied(fault_text(self.way, fault));
        e.push_str(error);
        self.errors.push(e);
        assert(text::texts(self.errors@) =~= text::texts(old(self).errors@).push(e@));
        match self.way {
            InitWay::Stream => {
                self.way = InitWay::File;
                None
            },
            InitWay::File => {
                self.way = InitWay::Item;
                None
            },
            InitWay::Item => {
                self.way = InitWay::PersistFile;
                None
            },
            InitWay::PersistFile => {
                let mut m = text::copied("预览处理器拒绝所有 Initialize 接口: [");
                m.push_str(&text::join(&self.errors, "; "));
                m.push_str("]");
                Some(m)
            },
        }
    }
}

// ---- files that are still in the cloud ----------------------------------------------------

/// The cloud provider is not running.
pub const ERROR_CLOUD_FILE_PROVIDER_NOT_RUNNING: i32 = 362;

/// The most bytes that are read to bring a file to this machine: 64 MiB.
pub const HYDRATE_MAX: u64 = 67_108_864;

/// The bytes of one read.
pub const HYDRATE_CHUNK: u64 = 524_288;

/// After so many bytes the attributes are looked at again: 2 MiB.
pub const HYDRATE_CHECK: u64 = 2_097_152;

/// Offline, or fetched when it is opened or read.
pub open spec fn recalled(attrs: u32) -> bool {
    attrs & 0x44_1000 != 0
}

/// A path that looks like a directory of a cloud drive.
pub open spec fn cloud_path(path: Seq<char>) -> bool {
    let s = text::lowercased(path);
    text::holds(s, "onedrive"@) || text::holds(s, "wps cloud files"@) || text::holds(s, "dropbox"@)
        || text::holds(s, "google drive"@) || text::holds(s, "icloud"@)
}

pub fn path_looks_like_cloud_storage(path: &str) -> (r: bool)
    ensures
        r == cloud_path(path@),
{
    let s = text::to_lower(path);
    text::contains(&s, "onedrive") || text::contains(&s, "wps cloud files") || text::contains(
        &s,
        "dropbox",
    ) || text::contains(&s, "google drive") || text::contains(&s, "icloud")
}

/// Whether a file is read before it is handed over: where its path or its attributes say that it
/// may not be on this machine. (A sparse file outside a cloud drive is an ordinary file; inside
/// one the path decides already.)
pub fn needs_hydration(path: &str, attrs: u32) -> (r: bool)
    ensures
        r == (cloud_path(path@) || recalled(attrs)),
{
    path_looks_like_cloud_storage(path) || attrs & 0x44_1000 != 0
}

/// What an error of opening or reading means: without the provider there is no preview; any other
/// error only ends the reading.
pub fn hydrate_error(os_error: Option<i32>) -> (r: Result<(), String>)
    ensures
        match r {
            Ok(_) => os_error != Some(ERROR_CLOUD_FILE_PROVIDER_NOT_RUNNING),
            Err(e) => os_error == Some(ERROR_CLOUD_FILE_PROVIDER_NOT_RUNNING) && e@
                == "云文件提供程序未运行（系统错误 362）。请启动并登录 OneDrive，或将该文件/文件夹设为「始终保留在此设备上」后再预览。"@,
        },
{
    match os_error {
        Some(c) => {
            if c == ERROR_CLOUD_FILE_PROVIDER_NOT_RUNNING {
                return Err(
                    text::copied(
                        "云文件提供程序未运行（系统错误 362）。请启动并登录 OneDrive，或将该文件/文件夹设为「始终保留在此设备上」后再预览。",
                    ),
                );
            }
            Ok(())
        },
        None => Ok(()),
    }
}

/// The reading of a file.
#[derive(Debug, Clone, Copy, PartialEq, Eq, Structural)]
pub struct Hydration {
    pub max_read: u64,
    pub total: u64,
    pub since_check: u64,
}

#[derive(Debug, Clone, Copy, PartialEq, Eq, Structural)]
pub enum HydrateNext {
    Read,
    /// Look at the attributes of the file.
    Check,
    Done,
}

impl Hydration {
    pub open spec fn wf(&self) -> bool {
        &&& self.max_read <= HYDRATE_MAX
        &&& self.total < self.max_read + HYDRATE_CHUNK
        &&& self.since_check < HYDRATE_CHECK
    }

    pub fn new(len: u64) -> (r: Hydration)
        ensures
            r.wf(),
            r.max_read == (if len < HYDRATE_MAX {
                len
            } else {
                HYDRATE_MAX
            }),
            r.total == 0,
            r.since_check == 0,
    {
        Hydration {
            max_read: if len < HYDRATE_MAX {
                len
            } else {
                HYDRATE_MAX
            },
            total: 0,
            since_check: 0,
        }
    }

    pub fn next(&self) -> (r: HydrateNext)
        ensures
            r == (if self.total < self.max_read {
                HydrateNext::Read
            } else {
                HydrateNext::Done
            }),
    {
        if self.total < self.max_read {
            HydrateNext::Read
        } else {
            HydrateNext::Done
        }
    }

    /// A read brought `n` bytes.
    pub fn on_read(&mut self, n: u64) -> (r: HydrateNext)
        requires
            old(self).wf(),
            old(self).total < old(self).max_read,
            n <= HYDRATE_CHUNK,
        ensures
            final(self).wf(),
            final(self).max_read == old(self).max_read,
            final(self).total == old(self).total + n,
            if n == 0 {
                r == HydrateNext::Done && *final(self) == *old(self)
            } else if old(self).since_check + n >= HYDRATE_CHECK {
                r == HydrateNext::Check && final(self).since_check == 0
            } else {
                final(self).since_check == old(self).since_check + n && r == (if final(self).total
                    < final(self).max_read {
                    HydrateNext::Read
                } else {
                    HydrateNext::Done
                })
            },
    {
        if n == 0 {
            return HydrateNext::Done;
        }
        self.total = self.total + n;
        let since: u64 = self.since_check + n;
        if since >= HYDRATE_CHECK {
            self.since_check = 0;
            return HydrateNext::Check;
        }
        self.since_check = since;
        self.next()
    }

    /// The attributes were looked at (`None`: they could not be): once they no longer say that
    /// the file is elsewhere, the reading ends.
    pub fn on_attrs(&self, attrs: Option<u32>) -> (r: HydrateNext)
        ensures
            r == (match attrs {
                Some(a) if !recalled(a) => HydrateNext::Done,
                _ => if self.total < self.max_read {
                    HydrateNext::Read
                } else {
                    HydrateNext::Done
                },
            }),
    {
        match attrs {
            Some(a) => {
                if a & 0x44_1000 == 0 {
                    return HydrateNext::Done;
                }
            },
            None => {},
        }
        self.next()
    }
}

/// An ordinary file outside the cloud drives is never read beforehand, sparse or not.
pub proof fn law_local_files_are_left_alone(path: Seq<char>, attrs: u32)
    requires
        !cloud_path(path),
        attrs & 0x1000 == 0,
        attrs & 0x4_0000 == 0,
        attrs & 0x40_0000 == 0,
    ensures
        !(cloud_path(path) || recalled(attrs)),
{
    assert(attrs & 0x44_1000 == 0) by (bit_vector)
        requires
            attrs & 0x1000 == 0,
            attrs & 0x4_0000 == 0,
            attrs & 0x40_0000 == 0,
    ;
}

/// The handler of an extension itself wins over that of its type, and that over the one of the
/// system; a default that is no identifier counts as none.
pub proof fn law_handler_order(reg: Seq<(Seq<char>, Seq<char>)>, prefix: Seq<char>, ext: Seq<char>)
    ensures
        ({
            let dot = "."@ + ext;
            let own = clsid_at(reg, prefix + dot + "\\"@ + handler_key());
            let system = clsid_at(
                reg,
                prefix + ("SystemFileAssociations\\"@ + dot) + "\\"@ + handler_key(),
            );
            let h = handler_of(reg, prefix, ext);
            &&& own is Some ==> h == own
            &&& own is None ==> (match default_of(reg, prefix + dot) {
                Some(t) => {
                    let by_type = clsid_at(reg, prefix + t + "\\"@ + handler_key());
                    if by_type is Some {
                        h == by_type
                    } else {
                        h == system
                    }
                },
                None => h == system,
            })
        }),
        handler_key() == "shellex\\{8895b1c6-b41f-4c1c-a562-0d564250836f}"@,
{
}

/// The default of a key is that of the first entry under it.
pub proof fn law_default_of_a_key(
    reg: Seq<(Seq<char>, Seq<char>)>,
    key: Seq<char>,
    i: int,
)
    requires
        0 <= i < reg.len(),
        reg[i].0 == key,
        forall|j: int| 0 <= j < i ==> (#[trigger] reg[j]).0 != key,
    ensures
        default_of(reg, key) == Some(reg[i].1),
    decreases reg.len(),
{
    if i > 0 {
        let t = reg.drop_first();
        assert(reg[0].0 != key);
        assert forall|j: int| 0 <= j < i - 1 implies (#[trigger] t[j]).0 != key by {
            assert(t[j] == reg[j + 1]);
        }
        law_default_of_a_key(t, key, i - 1);
    }
}

/// A file is fetched before it is shown where its attributes say that it is elsewhere, or its path
/// names a service that keeps files elsewhere.
pub proof fn law_files_kept_elsewhere(path: Seq<char>, attrs: u32)
    ensures
        attrs & 0x1000 != 0 || attrs & 0x4_0000 != 0 || attrs & 0x40_0000 != 0 ==> recalled(attrs),
        text::holds(text::lowercased(path), "onedrive"@) ==> cloud_path(path),
        text::holds(text::lowercased(path), "wps cloud files"@) ==> cloud_path(path),
        text::holds(text::lowercased(path), "dropbox"@) ==> cloud_path(path),
        text::holds(text::lowercased(path), "google drive"@) ==> cloud_path(path),
        text::holds(text::lowercased(path), "icloud"@) ==> cloud_path(path),
{
    assert(attrs & 0x1000 != 0 || attrs & 0x4_0000 != 0 || attrs & 0x40_0000 != 0 ==> attrs
        & 0x44_1000 != 0) by (bit_vector);
}

/// A handler is handed the file as a stream, then as a path, then as an item, then as a file to load.
pub proof fn law_ways_to_hand_over()
    ensures
        next_way(InitWay::Stream) == Some(InitWay::File),
        next_way(InitWay::File) == Some(InitWay::Item),
        next_way(InitWay::Item) == Some(InitWay::PersistFile),
        next_way(InitWay::PersistFile) is None,
{
}

/// A text that the registry returns with its length in bytes, the zero at its end among them, is read
/// without that zero and without white space around it.
pub proof fn law_registry_text(s: Seq<char>, rest: Seq<u16>, len_bytes: u32)
    requires
        len_bytes == 2 * (utf16::encoded(s).len() + 1),
        s.len() > 0 ==> s.last() != '\0',
    ensures
        value_text(utf16::encoded(s).push(0u16) + rest, len_bytes) == text::trimmed(s),
{
    let u = utf16::encoded(s);
    let buf = u.push(0u16) + rest;
    assert(buf.take(u.len() as int) =~= u);
    utf16::law_utf16_round_trip(s);
}

/// The handler of a file is that of its extension in small letters; a file without one has none.
pub proof fn law_handler_of_a_file(
    reg: Seq<(Seq<char>, Seq<char>)>,
    prefix: Seq<char>,
    path: Seq<char>,
)
    ensures
        ({
            let e = paths::extension_of(PathStyle::Windows, path);
            &&& e is None || e->0.len() == 0 ==> handler_for(reg, prefix, path) is None
            &&& e is Some && e->0.len() > 0 ==> handler_for(reg, prefix, path) == handler_of(
                reg,
                prefix,
                text::lowercased(e->0),
            )
        }),
{
}

} // verus!
