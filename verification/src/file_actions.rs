//! What the window does with a file of the hit list: rename it, open it, drag it, show a console
//! beside it.
use vstd::prelude::*;
use crate::paths::{self, PathStyle};
use crate::text;

verus! {

/// The rename that was asked for.
#[derive(Debug)]
pub enum RenamePlan {
    /// The name is the one the item has.
    Unchanged(String),
    /// Rename to this path, unless something is there.
    MoveTo(String),
}

pub enum RenamePlanView {
    Unchanged(Seq<char>),
    MoveTo(Seq<char>),
}

impl View for RenamePlan {
    type V = RenamePlanView;

    open spec fn view(&self) -> RenamePlanView {
        match *self {
            RenamePlan::Unchanged(p) => RenamePlanView::Unchanged(p@),
            RenamePlan::MoveTo(p) => RenamePlanView::MoveTo(p@),
        }
    }
}

pub open spec fn has_separator(name: Seq<char>) -> bool {
    name.contains('\\') || name.contains('/')
}

/// Why the name is refused, else where the item goes.
pub open spec fn rename_of(style: PathStyle, path: Seq<char>, exists: bool, new_name: Seq<char>) -> Result<
    RenamePlanView,
    Seq<char>,
> {
    let name = text::trimmed(new_name);
    if !exists {
        Err("File does not exist on disk."@)
    } else if name.len() == 0 {
        Err("Name cannot be empty."@)
    } else if has_separator(name) {
        Err("Name must not include path separators."@)
    } else {
        match paths::parent_of(style, path) {
            None => Err("Failed to resolve the parent directory."@),
            Some(parent) => {
                let next = paths::joined_path(style, parent, name);
                if paths::same_path(style, next, path) {
                    Ok(RenamePlanView::Unchanged(path))
                } else {
                    Ok(RenamePlanView::MoveTo(next))
                }
            },
        }
    }
}

pub open spec fn plan_view(r: Result<RenamePlan, String>) -> Result<RenamePlanView, Seq<char>> {
    match r {
        Ok(p) => Ok(p@),
        Err(e) => Err(e@),
    }
}

/// The first part of a rename.
pub fn rename_path(style: PathStyle, path: &str, exists: bool, new_name: &str) -> (r: Result<
    RenamePlan,
    String,
>)
    ensures
        plan_view(r) == rename_of(style, path@, exists, new_name@),
{
    if !exists {
        return Err(text::copied("File does not exist on disk."));
    }
    let name = text::trim(new_name);
    if name.as_str().is_empty() {
        return Err(text::copied("Name cannot be empty."));
    }
    if text::has_char(&name, '\\') || text::has_char(&name, '/') {
        return Err(text::copied("Name must not include path separators."));
    }
    let parent = match paths::parent(style, path) {
        Some(p) => p,
        None => {
            return Err(text::copied("Failed to resolve the parent directory."));
        },
    };
    let next = paths::join(style, &parent, &name);
    if paths::equal_paths(style, &next, path) {
        Ok(RenamePlan::Unchanged(text::copied(path)))
    } else {
        Ok(RenamePlan::MoveTo(next))
    }
}

/// The second part: nothing may be in the way, and the system must do it. `moved` is not looked
/// at where something is in the way.
pub fn finish_rename(next: String, taken: bool, moved: Result<(), String>) -> (r: Result<
    String,
    String,
>)
    ensures
        match r {
            Ok(p) => !taken && moved is Ok && p == next,
            Err(e) => if taken {
                e@ == "An item with that name already exists."@
            } else {
                moved matches Err(m) && e@ == "Failed to rename item: "@ + m@
            },
        },
{
    if taken {
        return Err(text::copied("An item with that name already exists."));
    }
    match moved {
        Ok(_) => Ok(next),
        Err(m) => {
            let mut e = text::copied("Failed to rename item: ");
            e.push_str(&m);
            Err(e)
        },
    }
}

/// An item that is renamed stays in its directory: the new path is the directory, at most one
/// separator, and the new name; below a directory that is taken literally, its parts and the new
/// name as one more. (A name with a colon can name a drive, and is left out.)
pub proof fn law_renamed_in_place(
    style: PathStyle,
    path: Seq<char>,
    new_name: Seq<char>,
    next: Seq<char>,
)
    requires
        rename_of(style, path, true, new_name) == Ok::<RenamePlanView, Seq<char>>(
            RenamePlanView::MoveTo(next),
        ),
        !text::trimmed(new_name).contains(':'),
    ensures
        paths::parent_of(style, path) matches Some(dir) && if paths::verbatim(style, dir) {
            paths::names(text::trimmed(new_name)) ==> next == dir.take(
                paths::prefix_len(style, dir),
            ) + "\\"@ + text::joined(
                paths::parts_of(style, dir).push(text::trimmed(new_name)),
                "\\"@,
            )
        } else {
            next == dir + text::trimmed(new_name) || next == dir.push(paths::main_sep(style))
                + text::trimmed(new_name)
        },
{
    let name = text::trimmed(new_name);
    let dir = paths::parent_of(style, path)->0;
    assert(name.contains(name[0]));
    if name.len() >= 2 {
        assert(name.contains(name[1]));
    }
    assert(paths::prefix_len(style, name) == 0);
    assert(next == paths::joined_path(style, dir, name));
    if paths::verbatim(style, dir) && paths::names(name) {
        assert forall|i: int| 0 <= i < name.len() implies #[trigger] name[i] != '/' && name[i]
            != '\\' by {
            assert(name.contains(name[i]));
        }
        paths::law_literal_join_name(style, dir, name);
    }
}

/// How an item is deleted.
#[derive(Debug, Clone, Copy, PartialEq, Eq, Structural)]
pub enum Deletion {
    Directory,
    File,
}

/// A directory goes with everything in it.
pub fn delete_path(is_dir: bool) -> (r: Deletion)
    ensures
        r == (if is_dir {
            Deletion::Directory
        } else {
            Deletion::File
        }),
{
    if is_dir {
        Deletion::Directory
    } else {
        Deletion::File
    }
}

fn must_exist(exists: bool, message: &str) -> (r: Result<(), String>)
    ensures
        match r {
            Ok(_) => exists,
            Err(e) => !exists && e@ == message@,
        },
{
    if exists {
        Ok(())
    } else {
        Err(text::copied(message))
    }
}

/// Whether a file can be opened.
pub fn open_file(exists: bool) -> (r: Result<(), String>)
    ensures
        match r {
            Ok(_) => exists,
            Err(e) => !exists && e@ == "File does not exist on disk."@,
        },
{
    must_exist(exists, "File does not exist on disk.")
}

/// Whether an item can be shown in its folder.
pub fn reveal_in_folder(exists: bool) -> (r: Result<(), String>)
    ensures
        match r {
            Ok(_) => exists,
            Err(e) => !exists && e@ == "File does not exist on disk."@,
        },
{
    must_exist(exists, "File does not exist on disk.")
}

/// The directory in which a console is opened: the directory itself, else the one that holds the
/// file.
pub open spec fn console_of(style: PathStyle, path: Seq<char>, exists: bool, is_dir: bool) -> Result<
    Seq<char>,
    Seq<char>,
> {
    if !exists {
        Err("Path does not exist on disk."@)
    } else if is_dir {
        Ok(path)
    } else {
        match paths::parent_of(style, path) {
            Some(p) => Ok(p),
            None => Err("Failed to resolve the parent folder for the requested path."@),
        }
    }
}

pub fn open_path_in_console(style: PathStyle, path: &str, exists: bool, is_dir: bool) -> (r: Result<
    String,
    String,
>)
    ensures
        text::texts_of(r) == console_of(style, path@, exists, is_dir),
{
    if !exists {
        return Err(text::copied("Path does not exist on disk."));
    }
    if is_dir {
        return Ok(text::copied(path));
    }
    match paths::parent(style, path) {
        Some(p) => Ok(p),
        None => Err(text::copied("Failed to resolve the parent folder for the requested path.")),
    }
}

/// The directory that was found is looked at once more before the console opens.
pub fn check_console_target(is_dir: bool) -> (r: Result<(), String>)
    ensures
        match r {
            Ok(_) => is_dir,
            Err(e) => !is_dir && e@ == "Resolved console target is not a directory."@,
        },
{
    must_exist(is_dir, "Resolved console target is not a directory.")
}

/// Only files that exist can be dragged out of the window.
pub fn start_native_file_drag(exists: bool, is_file: bool) -> (r: Result<(), String>)
    ensures
        match r {
            Ok(_) => exists && is_file,
            Err(e) => if !exists {
                e@ == "File does not exist on disk."@
            } else {
                !is_file && e@ == "Only files can be dragged out of FindX2."@
            },
        },
{
    match must_exist(exists, "File does not exist on disk.") {
        Err(e) => {
            return Err(e);
        },
        Ok(_) => {},
    }
    must_exist(is_file, "Only files can be dragged out of FindX2.")
}

/// What a drag does next.
#[derive(Debug, Clone, Copy, PartialEq, Eq, Structural)]
pub enum DragNext {
    Cancel,
    Drop,
    GoOn,
}

/// The escape key ends a drag without effect; letting go of the left button drops.
pub fn query_continue_drag(escape: bool, left_button: bool) -> (r: DragNext)
    ensures
        r == (if escape {
            DragNext::Cancel
        } else if !left_button {
            DragNext::Drop
        } else {
            DragNext::GoOn
        }),
{
    if escape {
        DragNext::Cancel
    } else if !left_button {
        DragNext::Drop
    } else {
        DragNext::GoOn
    }
}

// ---- traces of the first version ----------------------------------------------------------

/// The files that only the first version of the program leaves.
pub open spec fn legacy_markers(style: PathStyle, local_data: Option<Seq<char>>, exe_dir: Seq<
    char,
>) -> Seq<Seq<char>> {
    let below = match local_data {
        Some(d) => {
            let dir = paths::joined_path(style, d, "FindX"@);
            seq![
                paths::joined_path(style, dir, "settings.json"@),
                paths::joined_path(style, dir, "engine_mem_stats.log"@),
            ]
        },
        None => Seq::empty(),
    };
    below + seq![
        paths::joined_path(style, exe_dir, "FindX.exe"@),
        paths::joined_path(style, exe_dir, "FindX.Service.exe"@),
    ]
}

pub fn legacy_v1_markers(style: PathStyle, local_data: &Option<String>, exe_dir: &str) -> (r: Vec<
    String,
>)
    ensures
        text::texts(r@) == legacy_markers(
            style,
            text::opt_view(*local_data),
            exe_dir@,
        ),
{
    let mut v: Vec<String> = Vec::new();
    match local_data {
        Some(d) => {
            let dir = paths::join(style, d, "FindX");
            v.push(paths::join(style, &dir, "settings.json"));
            v.push(paths::join(style, &dir, "engine_mem_stats.log"));
        },
        None => {},
    }
    v.push(paths::join(style, exe_dir, "FindX.exe"));
    v.push(paths::join(style, exe_dir, "FindX.Service.exe"));
    proof {
        assert(text::texts(v@) =~= legacy_markers(
            style,
            text::opt_view(*local_data),
            exe_dir@,
        ));
    }
    v
}

/// The first version was here where any of its files is.
pub fn detect_legacy_v1_installation(found: &Vec<bool>) -> (r: bool)
    ensures
        r == found@.contains(true),
{
    let mut i: usize = 0;
    while i < found.len()
        invariant
            i <= found.len(),
            forall|k: int| 0 <= k < i ==> !found@[k],
        decreases found.len() - i,
    {
        if found[i] {
            assert(found@[i as int] == true);
            return true;
        }
        i += 1;
    }
    false
}

/// What happens to the main window once its page is there: it is shown, and takes the focus the
/// first time only.
#[derive(Debug, Clone, Copy, PartialEq, Eq, Structural)]
pub enum PageLoaded {
    Nothing,
    Show,
    ShowAndFocus,
}

pub fn on_page_load(finished: bool, main_window: bool, shown_before: bool) -> (r: PageLoaded)
    ensures
        r == (if !finished || !main_window {
            PageLoaded::Nothing
        } else if shown_before {
            PageLoaded::Show
        } else {
            PageLoaded::ShowAndFocus
        }),
{
    if !finished || !main_window {
        PageLoaded::Nothing
    } else if shown_before {
        PageLoaded::Show
    } else {
        PageLoaded::ShowAndFocus
    }
}

/// A console opens in a directory itself, and for a file in the directory that it is in.
pub proof fn law_console_place(style: PathStyle, path: Seq<char>)
    ensures
        console_of(style, path, true, true) == Ok::<Seq<char>, Seq<char>>(path),
        paths::parent_of(style, path) matches Some(p) ==> console_of(style, path, true, false)
            == Ok::<Seq<char>, Seq<char>>(p),
        console_of(style, path, false, true) is Err && console_of(style, path, false, false) is Err,
{
}

/// A name that is blank or holds a separator is refused, and so is one for a file that is gone.
pub proof fn law_refused_names(style: PathStyle, path: Seq<char>, name: Seq<char>)
    ensures
        rename_of(style, path, false, name) is Err,
        text::trimmed(name).len() == 0 ==> rename_of(style, path, true, name) is Err,
        text::trimmed(name).contains('\\') || text::trimmed(name).contains('/') ==> rename_of(
            style,
            path,
            true,
            name,
        ) is Err,
{
}

/// What the first version leaves behind: two files below the local data, where that is known, and
/// two programs beside this one.
pub proof fn law_traces_of_the_first_version(
    style: PathStyle,
    d: Seq<char>,
    exe_dir: Seq<char>,
)
    ensures
        ({
            let below = paths::joined_path(style, d, "FindX"@);
            let m = legacy_markers(style, Some(d), exe_dir);
            &&& m.len() == 4
            &&& m[0] == paths::joined_path(style, below, "settings.json"@)
            &&& m[1] == paths::joined_path(style, below, "engine_mem_stats.log"@)
            &&& m[2] == paths::joined_path(style, exe_dir, "FindX.exe"@)
            &&& m[3] == paths::joined_path(style, exe_dir, "FindX.Service.exe"@)
            &&& legacy_markers(style, None, exe_dir) == m.skip(2)
        }),
{
    let m = legacy_markers(style, Some(d), exe_dir);
    assert(legacy_markers(style, None, exe_dir) =~= m.skip(2));
}

} // verus!
