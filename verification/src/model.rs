//! Values that the modules hand to one another: raw index entries, change events and errors.
use vstd::prelude::*;

verus! {

/// What can go wrong below the index.
#[derive(Debug)]
pub enum Error {
    /// A platform call failed or the platform is not supported.
    Platform(String),
    /// The change journal no longer covers the saved position; only a rebuild helps.
    JournalGap(String),
}

/// An error as its kind and its text.
pub enum ErrorView {
    Platform(Seq<char>),
    JournalGap(Seq<char>),
}

impl View for Error {
    type V = ErrorView;

    open spec fn view(&self) -> ErrorView {
        match *self {
            Error::Platform(s) => ErrorView::Platform(s@),
            Error::JournalGap(s) => ErrorView::JournalGap(s@),
        }
    }
}

/// A 128-bit file identifier as its bytes.
pub open spec fn id_bytes(id: Option<[u8; 16]>) -> Option<Seq<u8>> {
    match id {
        Some(b) => Some(b@),
        None => None,
    }
}

/// One file or directory as a volume scan finds it.
#[derive(Debug)]
pub struct RawEntry {
    pub file_id: u64,
    pub file_id_128: Option<[u8; 16]>,
    pub parent_id: u64,
    pub name: String,
    pub size: u64,
    pub mtime: u64,
    pub ctime: u64,
    pub attrs: u32,
    pub is_dir: bool,
}

pub struct RawEntryView {
    pub file_id: u64,
    pub file_id_128: Option<Seq<u8>>,
    pub parent_id: u64,
    pub name: Seq<char>,
    pub size: u64,
    pub mtime: u64,
    pub ctime: u64,
    pub attrs: u32,
    pub is_dir: bool,
}

impl View for RawEntry {
    type V = RawEntryView;

    open spec fn view(&self) -> RawEntryView {
        RawEntryView {
            file_id: self.file_id,
            file_id_128: id_bytes(self.file_id_128),
            parent_id: self.parent_id,
            name: self.name@,
            size: self.size,
            mtime: self.mtime,
            ctime: self.ctime,
            attrs: self.attrs,
            is_dir: self.is_dir,
        }
    }
}

/// The entries of a list, each by its view.
pub open spec fn entries(v: Seq<RawEntry>) -> Seq<RawEntryView> {
    v.map_values(|e: RawEntry| e@)
}

/// A change that the index applies.
#[derive(Debug)]
pub enum ChangeEvent {
    Delete { file_id: u64 },
    Rename { file_id: u64, new_parent_id: u64, new_name: String },
    /// A new entry whose size and times are not known yet.
    CreatePending {
        file_id: u64,
        file_id_128: Option<[u8; 16]>,
        parent_id: u64,
        name: String,
        attrs: u32,
        is_dir: bool,
    },
}

pub enum ChangeEventView {
    Delete { file_id: u64 },
    Rename { file_id: u64, new_parent_id: u64, new_name: Seq<char> },
    CreatePending {
        file_id: u64,
        file_id_128: Option<Seq<u8>>,
        parent_id: u64,
        name: Seq<char>,
        attrs: u32,
        is_dir: bool,
    },
}

impl View for ChangeEvent {
    type V = ChangeEventView;

    open spec fn view(&self) -> ChangeEventView {
        match *self {
            ChangeEvent::Delete { file_id } => ChangeEventView::Delete { file_id },
            ChangeEvent::Rename { file_id, new_parent_id, new_name } => ChangeEventView::Rename {
                file_id,
                new_parent_id,
                new_name: new_name@,
            },
            ChangeEvent::CreatePending { file_id, file_id_128, parent_id, name, attrs, is_dir } =>
                ChangeEventView::CreatePending {
                    file_id,
                    file_id_128: id_bytes(file_id_128),
                    parent_id,
                    name: name@,
                    attrs,
                    is_dir,
                },
        }
    }
}

} // verus!
