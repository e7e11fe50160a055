//! The previews that the window draws itself: text, and images, films and documents as data URLs.
use vstd::prelude::*;
use base64::Engine;
use crate::everything_ipc;
use crate::paths::{self, PathStyle};
use crate::text;

verus! {

/// The most bytes of a text preview where nothing is asked for.
pub const TEXT_BYTES: u64 = 65_536;

/// The most bytes of a text preview in any case.
pub const MAX_TEXT_BYTES: u64 = 1_048_576;

// ---- base64 -------------------------------------------------------------------------------

/// The letter for six bits.
pub open spec fn base64_letter(n: int) -> char {
    if n < 26 {
        ('A' as int + n) as char
    } else if n < 52 {
        ('a' as int + (n - 26)) as char
    } else if n < 62 {
        ('0' as int + (n - 52)) as char
    } else if n == 62 {
        '+'
    } else {
        '/'
    }
}

/// The four letters of up to three bytes.
pub open spec fn base64_group(b: Seq<u8>) -> Seq<char> {
    let x = b[0] as int;
    let y = if b.len() > 1 {
        b[1] as int
    } else {
        0
    };
    let z = if b.len() > 2 {
        b[2] as int
    } else {
        0
    };
    seq![
        base64_letter(x / 4),
        base64_letter((x % 4) * 16 + y / 16),
        if b.len() > 1 {
            base64_letter((y % 16) * 4 + z / 64)
        } else {
            '='
        },
        if b.len() > 2 {
            base64_letter(z % 64)
        } else {
            '='
        },
    ]
}

/// The bytes three by three.
pub open spec fn base64(b: Seq<u8>) -> Seq<char>
    decreases b.len(),
{
    if b.len() == 0 {
        Seq::empty()
    } else if b.len() <= 3 {
        base64_group(b)
    } else {
        base64_group(b.take(3)) + base64(b.skip(3))
    }
}

/// How many letters come out.
pub open spec fn base64_len(n: nat) -> nat {
    4 * ((n + 2) / 3)
}

/// `base64::engine::general_purpose::STANDARD.encode`: the bytes in the standard alphabet, three
/// by three, filled up with `=`. It stops the program where the text does not fit into memory
/// addresses, which is left out.
#[verifier::external_body]
fn encode_base64(b: &[u8]) -> (r: String)
    requires
        base64_len(b@.len()) <= isize::MAX,
    ensures
        r@ == base64(b@),
{
    base64::engine::general_purpose::STANDARD.encode(b)
}

/// Every started group of three bytes takes four letters.
pub proof fn law_base64_len(b: Seq<u8>)
    ensures
        base64(b).len() == base64_len(b.len()),
    decreases b.len(),
{
    if b.len() > 3 {
        law_base64_len(b.skip(3));
    }
}

// ---- data URLs ----------------------------------------------------------------------------

/// What is shown, by the extension in small letters.
pub open spec fn mime_of(ext: Seq<char>) -> Option<Seq<char>> {
    if ext == "png"@ {
        Some("image/png"@)
    } else if ext == "jpg"@ || ext == "jpeg"@ {
        Some("image/jpeg"@)
    } else if ext == "gif"@ {
        Some("image/gif"@)
    } else if ext == "webp"@ {
        Some("image/webp"@)
    } else if ext == "bmp"@ {
        Some("image/bmp"@)
    } else if ext == "ico"@ {
        Some("image/x-icon"@)
    } else if ext == "pdf"@ {
        Some("application/pdf"@)
    } else if ext == "mp4"@ {
        Some("video/mp4"@)
    } else if ext == "webm"@ {
        Some("video/webm"@)
    } else if ext == "mov"@ {
        Some("video/quicktime"@)
    } else if ext == "m4v"@ {
        Some("video/x-m4v"@)
    } else if ext == "avi"@ {
        Some("video/x-msvideo"@)
    } else if ext == "mkv"@ {
        Some("video/x-matroska"@)
    } else if ext == "wmv"@ {
        Some("video/x-ms-wmv"@)
    } else {
        None
    }
}

/// The largest file that is shown, in bytes: 8 MiB for documents, 20 MiB for films, 12 MiB for
/// images.
pub open spec fn size_limit(ext: Seq<char>) -> u64 {
    if ext == "pdf"@ {
        8_388_608
    } else if ext == "mp4"@ || ext == "webm"@ || ext == "mov"@ || ext == "m4v"@ || ext == "avi"@
        || ext == "mkv"@ || ext == "wmv"@ {
        20_971_520
    } else {
        12_582_912
    }
}

fn extension_mime(ext: &str) -> (r: Option<&'static str>)
    ensures
        match r {
            Some(m) => mime_of(ext@) == Some(m@),
            None => mime_of(ext@) is None,
        },
{
    if text::same_text(ext, "png") {
        Some("image/png")
    } else if text::same_text(ext, "jpg") || text::same_text(ext, "jpeg") {
        Some("image/jpeg")
    } else if text::same_text(ext, "gif") {
        Some("image/gif")
    } else if text::same_text(ext, "webp") {
        Some("image/webp")
    } else if text::same_text(ext, "bmp") {
        Some("image/bmp")
    } else if text::same_text(ext, "ico") {
        Some("image/x-icon")
    } else if text::same_text(ext, "pdf") {
        Some("application/pdf")
    } else if text::same_text(ext, "mp4") {
        Some("video/mp4")
    } else if text::same_text(ext, "webm") {
        Some("video/webm")
    } else if text::same_text(ext, "mov") {
        Some("video/quicktime")
    } else if text::same_text(ext, "m4v") {
        Some("video/x-m4v")
    } else if text::same_text(ext, "avi") {
        Some("video/x-msvideo")
    } else if text::same_text(ext, "mkv") {
        Some("video/x-matroska")
    } else if text::same_text(ext, "wmv") {
        Some("video/x-ms-wmv")
    } else {
        None
    }
}

fn extension_limit(ext: &str) -> (r: u64)
    ensures
        r == size_limit(ext@),
{
    if text::same_text(ext, "pdf") {
        8_388_608
    } else if text::same_text(ext, "mp4") || text::same_text(ext, "webm") || text::same_text(
        ext,
        "mov",
    ) || text::same_text(ext, "m4v") || text::same_text(ext, "avi") || text::same_text(ext, "mkv")
        || text::same_text(ext, "wmv") {
        20_971_520
    } else {
        12_582_912
    }
}

/// The extension of a path in small letters; empty without one.
pub open spec fn small_extension(style: PathStyle, path: Seq<char>) -> Seq<char> {
    match paths::extension_of(style, path) {
        Some(e) => text::lowercased(e),
        None => Seq::empty(),
    }
}

fn lowercase_extension(style: PathStyle, path: &str) -> (r: String)
    ensures
        r@ == small_extension(style, path@),
{
    match paths::extension(style, path) {
        Some(e) => text::to_lower(&e),
        None => {
            let s = String::new();
            assert(s@ =~= Seq::empty());
            s
        },
    }
}

/// Why a file is not shown, if it is not; `size` is what the system says of it.
pub open spec fn preview_refusal(
    style: PathStyle,
    path: Seq<char>,
    exists: bool,
    is_file: bool,
    size: Result<u64, Seq<char>>,
) -> Option<Seq<char>> {
    let ext = small_extension(style, path);
    if !exists {
        Some("Preview target does not exist."@)
    } else if !is_file {
        Some("Preview target is not a file."@)
    } else if mime_of(ext) is None {
        Some("Preview not supported for this file type."@)
    } else {
        match size {
            Err(e) => Some("Preview metadata read failed: "@ + e),
            Ok(n) => if n > size_limit(ext) {
                Some(
                    "Preview skipped: file too large ("@ + text::decimal(n as nat) + " bytes)."@,
                )
            } else {
                None
            },
        }
    }
}

/// Whether a file is shown.
pub fn check_preview(
    style: PathStyle,
    path: &str,
    exists: bool,
    is_file: bool,
    size: &Result<u64, String>,
) -> (r: Result<(), String>)
    ensures
        match r {
            Ok(_) => preview_refusal(style, path@, exists, is_file, text::with_text(*size)) is None,
            Err(e) => preview_refusal(style, path@, exists, is_file, text::with_text(*size)) == Some(e@),
        },
{
    if !exists {
        return Err(text::copied("Preview target does not exist."));
    }
    if !is_file {
        return Err(text::copied("Preview target is not a file."));
    }
    let ext = lowercase_extension(style, path);
    if extension_mime(&ext).is_none() {
        return Err(text::copied("Preview not supported for this file type."));
    }
    match size {
        Err(e) => {
            let mut m = text::copied("Preview metadata read failed: ");
            m.push_str(e);
            Err(m)
        },
        Ok(n) => {
            if *n > extension_limit(&ext) {
                let mut m = text::copied("Preview skipped: file too large (");
                m.push_str(&text::decimal_text(*n));
                m.push_str(" bytes).");
                Err(m)
            } else {
                Ok(())
            }
        },
    }
}

/// What the window shows of a file: the data URL of its bytes, or why there is none.
pub open spec fn preview_url(
    style: PathStyle,
    path: Seq<char>,
    bytes: Result<Seq<u8>, Seq<char>>,
) -> Result<Seq<char>, Seq<char>> {
    match (mime_of(small_extension(style, path)), bytes) {
        (None, _) => Err("Preview not supported for this file type."@),
        (Some(_), Err(m)) => Err("Preview read failed: "@ + m),
        (Some(m), Ok(b)) => Ok("data:"@ + m + ";base64,"@ + base64(b)),
    }
}

pub open spec fn read_bytes(r: Result<Vec<u8>, String>) -> Result<Seq<u8>, Seq<char>> {
    match r {
        Ok(b) => Ok(b@),
        Err(e) => Err(e@),
    }
}

/// The data URL of the bytes of a file that `check_preview` lets through, or why they could not
/// be read.
pub fn load_preview_data_url(style: PathStyle, path: &str, bytes: &Result<Vec<u8>, String>) -> (r:
    Result<String, String>)
    requires
        bytes matches Ok(b) ==> base64_len(b@.len()) <= isize::MAX,
    ensures
        match (mime_of(small_extension(style, path@)), *bytes) {
            (None, _) => r matches Err(e) && e@ == "Preview not supported for this file type."@,
            (Some(_), Err(m)) => r matches Err(e) && e@ == "Preview read failed: "@ + m@,
            (Some(m), Ok(b)) => r matches Ok(u) && u@ == "data:"@ + m + ";base64,"@ + base64(b@),
        },
        match r {
            Ok(u) => preview_url(style, path@, read_bytes(*bytes)) == Ok::<Seq<char>, Seq<char>>(u@),
            Err(e) => preview_url(style, path@, read_bytes(*bytes)) == Err::<Seq<char>, Seq<char>>(
                e@,
            ),
        },
{
    let ext = lowercase_extension(style, path);
    let mime = match extension_mime(&ext) {
        Some(m) => m,
        None => {
            return Err(text::copied("Preview not supported for this file type."));
        },
    };
    match bytes {
        Err(m) => {
            let mut e = text::copied("Preview read failed: ");
            e.push_str(m);
            Err(e)
        },
        Ok(b) => {
            let mut u = text::copied("data:");
            u.push_str(mime);
            u.push_str(";base64,");
            u.push_str(&encode_base64(b.as_slice()));
            Ok(u)
        },
    }
}

proof fn lemma_extensions_differ()
    ensures
        "png"@ != "jpg"@,
        "png"@ != "jpeg"@,
        "png"@ != "gif"@,
        "png"@ != "webp"@,
        "png"@ != "bmp"@,
        "png"@ != "ico"@,
        "png"@ != "pdf"@,
        "png"@ != "mp4"@,
        "png"@ != "webm"@,
        "png"@ != "mov"@,
        "png"@ != "m4v"@,
        "png"@ != "avi"@,
        "png"@ != "mkv"@,
        "png"@ != "wmv"@,
        "jpg"@ != "jpeg"@,
        "jpg"@ != "gif"@,
        "jpg"@ != "webp"@,
        "jpg"@ != "bmp"@,
        "jpg"@ != "ico"@,
        "jpg"@ != "pdf"@,
        "jpg"@ != "mp4"@,
        "jpg"@ != "webm"@,
        "jpg"@ != "mov"@,
        "jpg"@ != "m4v"@,
        "jpg"@ != "avi"@,
        "jpg"@ != "mkv"@,
        "jpg"@ != "wmv"@,
        "jpeg"@ != "gif"@,
        "jpeg"@ != "webp"@,
        "jpeg"@ != "bmp"@,
        "jpeg"@ != "ico"@,
        "jpeg"@ != "pdf"@,
        "jpeg"@ != "mp4"@,
        "jpeg"@ != "webm"@,
        "jpeg"@ != "mov"@,
        "jpeg"@ != "m4v"@,
        "jpeg"@ != "avi"@,
        "jpeg"@ != "mkv"@,
        "jpeg"@ != "wmv"@,
        "gif"@ != "webp"@,
        "gif"@ != "bmp"@,
        "gif"@ != "ico"@,
        "gif"@ != "pdf"@,
        "gif"@ != "mp4"@,
        "gif"@ != "webm"@,
        "gif"@ != "mov"@,
        "gif"@ != "m4v"@,
        "gif"@ != "avi"@,
        "gif"@ != "mkv"@,
        "gif"@ != "wmv"@,
        "webp"@ != "bmp"@,
        "webp"@ != "ico"@,
        "webp"@ != "pdf"@,
        "webp"@ != "mp4"@,
        "webp"@ != "webm"@,
        "webp"@ != "mov"@,
        "webp"@ != "m4v"@,
        "webp"@ != "avi"@,
        "webp"@ != "mkv"@,
        "webp"@ != "wmv"@,
        "bmp"@ != "ico"@,
        "bmp"@ != "pdf"@,
        "bmp"@ != "mp4"@,
        "bmp"@ != "webm"@,
        "bmp"@ != "mov"@,
        "bmp"@ != "m4v"@,
        "bmp"@ != "avi"@,
        "bmp"@ != "mkv"@,
        "bmp"@ != "wmv"@,
        "ico"@ != "pdf"@,
        "ico"@ != "mp4"@,
        "ico"@ != "webm"@,
        "ico"@ != "mov"@,
        "ico"@ != "m4v"@,
        "ico"@ != "avi"@,
        "ico"@ != "mkv"@,
        "ico"@ != "wmv"@,
        "pdf"@ != "mp4"@,
        "pdf"@ != "webm"@,
        "pdf"@ != "mov"@,
        "pdf"@ != "m4v"@,
        "pdf"@ != "avi"@,
        "pdf"@ != "mkv"@,
        "pdf"@ != "wmv"@,
        "mp4"@ != "webm"@,
        "mp4"@ != "mov"@,
        "mp4"@ != "m4v"@,
        "mp4"@ != "avi"@,
        "mp4"@ != "mkv"@,
        "mp4"@ != "wmv"@,
        "webm"@ != "mov"@,
        "webm"@ != "m4v"@,
        "webm"@ != "avi"@,
        "webm"@ != "mkv"@,
        "webm"@ != "wmv"@,
        "mov"@ != "m4v"@,
        "mov"@ != "avi"@,
        "mov"@ != "mkv"@,
        "mov"@ != "wmv"@,
        "m4v"@ != "avi"@,
        "m4v"@ != "mkv"@,
        "m4v"@ != "wmv"@,
        "avi"@ != "mkv"@,
        "avi"@ != "wmv"@,
        "mkv"@ != "wmv"@,
{
    reveal_strlit("png");
    reveal_strlit("jpg");
    reveal_strlit("jpeg");
    reveal_strlit("gif");
    reveal_strlit("webp");
    reveal_strlit("bmp");
    reveal_strlit("ico");
    reveal_strlit("pdf");
    reveal_strlit("mp4");
    reveal_strlit("webm");
    reveal_strlit("mov");
    reveal_strlit("m4v");
    reveal_strlit("avi");
    reveal_strlit("mkv");
    reveal_strlit("wmv");
    assert("png"@[0] != "jpg"@[0]);
    assert("png"@.len() != "jpeg"@.len());
    assert("png"@[0] != "gif"@[0]);
    assert("png"@.len() != "webp"@.len());
    assert("png"@[0] != "bmp"@[0]);
    assert("png"@[0] != "ico"@[0]);
    assert("png"@[1] != "pdf"@[1]);
    assert("png"@[0] != "mp4"@[0]);
    assert("png"@.len() != "webm"@.len());
    assert("png"@[0] != "mov"@[0]);
    assert("png"@[0] != "m4v"@[0]);
    assert("png"@[0] != "avi"@[0]);
    assert("png"@[0] != "mkv"@[0]);
    assert("png"@[0] != "wmv"@[0]);
    assert("jpg"@.len() != "jpeg"@.len());
    assert("jpg"@[0] != "gif"@[0]);
    assert("jpg"@.len() != "webp"@.len());
    assert("jpg"@[0] != "bmp"@[0]);
    assert("jpg"@[0] != "ico"@[0]);
    assert("jpg"@[0] != "pdf"@[0]);
    assert("jpg"@[0] != "mp4"@[0]);
    assert("jpg"@.len() != "webm"@.len());
    assert("jpg"@[0] != "mov"@[0]);
    assert("jpg"@[0] != "m4v"@[0]);
    assert("jpg"@[0] != "avi"@[0]);
    assert("jpg"@[0] != "mkv"@[0]);
    assert("jpg"@[0] != "wmv"@[0]);
    assert("jpeg"@.len() != "gif"@.len());
    assert("jpeg"@[0] != "webp"@[0]);
    assert("jpeg"@.len() != "bmp"@.len());
    assert("jpeg"@.len() != "ico"@.len());
    assert("jpeg"@.len() != "pdf"@.len());
    assert("jpeg"@.len() != "mp4"@.len());
    assert("jpeg"@[0] != "webm"@[0]);
    assert("jpeg"@.len() != "mov"@.len());
    assert("jpeg"@.len() != "m4v"@.len());
    assert("jpeg"@.len() != "avi"@.len());
    assert("jpeg"@.len() != "mkv"@.len());
    assert("jpeg"@.len() != "wmv"@.len());
    assert("gif"@.len() != "webp"@.len());
    assert("gif"@[0] != "bmp"@[0]);
    assert("gif"@[0] != "ico"@[0]);
    assert("gif"@[0] != "pdf"@[0]);
    assert("gif"@[0] != "mp4"@[0]);
    assert("gif"@.len() != "webm"@.len());
    assert("gif"@[0] != "mov"@[0]);
    assert("gif"@[0] != "m4v"@[0]);
    assert("gif"@[0] != "avi"@[0]);
    assert("gif"@[0] != "mkv"@[0]);
    assert("gif"@[0] != "wmv"@[0]);
    assert("webp"@.len() != "bmp"@.len());
    assert("webp"@.len() != "ico"@.len());
    assert("webp"@.len() != "pdf"@.len());
    assert("webp"@.len() != "mp4"@.len());
    assert("webp"@[3] != "webm"@[3]);
    assert("webp"@.len() != "mov"@.len());
    assert("webp"@.len() != "m4v"@.len());
    assert("webp"@.len() != "avi"@.len());
    assert("webp"@.len() != "mkv"@.len());
    assert("webp"@.len() != "wmv"@.len());
    assert("bmp"@[0] != "ico"@[0]);
    assert("bmp"@[0] != "pdf"@[0]);
    assert("bmp"@[0] != "mp4"@[0]);
    assert("bmp"@.len() != "webm"@.len());
    assert("bmp"@[0] != "mov"@[0]);
    assert("bmp"@[0] != "m4v"@[0]);
    assert("bmp"@[0] != "avi"@[0]);
    assert("bmp"@[0] != "mkv"@[0]);
    assert("bmp"@[0] != "wmv"@[0]);
    assert("ico"@[0] != "pdf"@[0]);
    assert("ico"@[0] != "mp4"@[0]);
    assert("ico"@.len() != "webm"@.len());
    assert("ico"@[0] != "mov"@[0]);
    assert("ico"@[0] != "m4v"@[0]);
    assert("ico"@[0] != "avi"@[0]);
    assert("ico"@[0] != "mkv"@[0]);
    assert("ico"@[0] != "wmv"@[0]);
    assert("pdf"@[0] != "mp4"@[0]);
    assert("pdf"@.len() != "webm"@.len());
    assert("pdf"@[0] != "mov"@[0]);
    assert("pdf"@[0] != "m4v"@[0]);
    assert("pdf"@[0] != "avi"@[0]);
    assert("pdf"@[0] != "mkv"@[0]);
    assert("pdf"@[0] != "wmv"@[0]);
    assert("mp4"@.len() != "webm"@.len());
    assert("mp4"@[1] != "mov"@[1]);
    assert("mp4"@[1] != "m4v"@[1]);
    assert("mp4"@[0] != "avi"@[0]);
    assert("mp4"@[1] != "mkv"@[1]);
    assert("mp4"@[0] != "wmv"@[0]);
    assert("webm"@.len() != "mov"@.len());
    assert("webm"@.len() != "m4v"@.len());
    assert("webm"@.len() != "avi"@.len());
    assert("webm"@.len() != "mkv"@.len());
    assert("webm"@.len() != "wmv"@.len());
    assert("mov"@[1] != "m4v"@[1]);
    assert("mov"@[0] != "avi"@[0]);
    assert("mov"@[1] != "mkv"@[1]);
    assert("mov"@[0] != "wmv"@[0]);
    assert("m4v"@[0] != "avi"@[0]);
    assert("m4v"@[1] != "mkv"@[1]);
    assert("m4v"@[0] != "wmv"@[0]);
    assert("avi"@[0] != "mkv"@[0]);
    assert("avi"@[0] != "wmv"@[0]);
    assert("mkv"@[0] != "wmv"@[0]);
}

proof fn lemma_url_texts()
    ensures
        "data:image/png;base64,"@ == "data:"@ + "image/png"@ + ";base64,"@,
        "data:image/jpeg;base64,"@ == "data:"@ + "image/jpeg"@ + ";base64,"@,
        "data:image/gif;base64,"@ == "data:"@ + "image/gif"@ + ";base64,"@,
        "data:image/webp;base64,"@ == "data:"@ + "image/webp"@ + ";base64,"@,
        "data:image/bmp;base64,"@ == "data:"@ + "image/bmp"@ + ";base64,"@,
        "data:image/x-icon;base64,"@ == "data:"@ + "image/x-icon"@ + ";base64,"@,
        "data:application/pdf;base64,"@ == "data:"@ + "application/pdf"@ + ";base64,"@,
        "data:video/mp4;base64,"@ == "data:"@ + "video/mp4"@ + ";base64,"@,
        "data:video/webm;base64,"@ == "data:"@ + "video/webm"@ + ";base64,"@,
        "data:video/quicktime;base64,"@ == "data:"@ + "video/quicktime"@ + ";base64,"@,
        "data:video/x-m4v;base64,"@ == "data:"@ + "video/x-m4v"@ + ";base64,"@,
        "data:video/x-msvideo;base64,"@ == "data:"@ + "video/x-msvideo"@ + ";base64,"@,
        "data:video/x-matroska;base64,"@ == "data:"@ + "video/x-matroska"@ + ";base64,"@,
        "data:video/x-ms-wmv;base64,"@ == "data:"@ + "video/x-ms-wmv"@ + ";base64,"@,
{
    reveal_strlit("data:");
    reveal_strlit(";base64,");
    reveal_strlit("image/png");
    reveal_strlit("data:image/png;base64,");
    assert("data:image/png;base64,"@ =~= "data:"@ + "image/png"@ + ";base64,"@);
    reveal_strlit("image/jpeg");
    reveal_strlit("data:image/jpeg;base64,");
    assert("data:image/jpeg;base64,"@ =~= "data:"@ + "image/jpeg"@ + ";base64,"@);
    reveal_strlit("image/gif");
    reveal_strlit("data:image/gif;base64,");
    assert("data:image/gif;base64,"@ =~= "data:"@ + "image/gif"@ + ";base64,"@);
    reveal_strlit("image/webp");
    reveal_strlit("data:image/webp;base64,");
    assert("data:image/webp;base64,"@ =~= "data:"@ + "image/webp"@ + ";base64,"@);
    reveal_strlit("image/bmp");
    reveal_strlit("data:image/bmp;base64,");
    assert("data:image/bmp;base64,"@ =~= "data:"@ + "image/bmp"@ + ";base64,"@);
    reveal_strlit("image/x-icon");
    reveal_strlit("data:image/x-icon;base64,");
    assert("data:image/x-icon;base64,"@ =~= "data:"@ + "image/x-icon"@ + ";base64,"@);
    reveal_strlit("application/pdf");
    reveal_strlit("data:application/pdf;base64,");
    assert("data:application/pdf;base64,"@ =~= "data:"@ + "application/pdf"@ + ";base64,"@);
    reveal_strlit("video/mp4");
    reveal_strlit("data:video/mp4;base64,");
    assert("data:video/mp4;base64,"@ =~= "data:"@ + "video/mp4"@ + ";base64,"@);
    reveal_strlit("video/webm");
    reveal_strlit("data:video/webm;base64,");
    assert("data:video/webm;base64,"@ =~= "data:"@ + "video/webm"@ + ";base64,"@);
    reveal_strlit("video/quicktime");
    reveal_strlit("data:video/quicktime;base64,");
    assert("data:video/quicktime;base64,"@ =~= "data:"@ + "video/quicktime"@ + ";base64,"@);
    reveal_strlit("video/x-m4v");
    reveal_strlit("data:video/x-m4v;base64,");
    assert("data:video/x-m4v;base64,"@ =~= "data:"@ + "video/x-m4v"@ + ";base64,"@);
    reveal_strlit("video/x-msvideo");
    reveal_strlit("data:video/x-msvideo;base64,");
    assert("data:video/x-msvideo;base64,"@ =~= "data:"@ + "video/x-msvideo"@ + ";base64,"@);
    reveal_strlit("video/x-matroska");
    reveal_strlit("data:video/x-matroska;base64,");
    assert("data:video/x-matroska;base64,"@ =~= "data:"@ + "video/x-matroska"@ + ";base64,"@);
    reveal_strlit("video/x-ms-wmv");
    reveal_strlit("data:video/x-ms-wmv;base64,");
    assert("data:video/x-ms-wmv;base64,"@ =~= "data:"@ + "video/x-ms-wmv"@ + ";base64,"@);
}

/// Each kind of file that the window can draw is drawn: a file of it that is there and within its
/// limit is not refused, and its data URL names the type of that very kind.
pub proof fn law_every_known_kind_is_shown(
    style: PathStyle,
    path: Seq<char>,
    n: u64,
    b: Seq<u8>,
)
    ensures
        small_extension(style, path) == "png"@ ==> {
            &&& n <= 12_582_912 ==> preview_refusal(style, path, true, true, Ok(n)) is None
            &&& n > 12_582_912 ==> preview_refusal(style, path, true, true, Ok(n)) is Some
            &&& preview_url(style, path, Ok(b)) == Ok::<Seq<char>, Seq<char>>(
                "data:image/png;base64,"@ + base64(b),
            )
        },
        small_extension(style, path) == "jpg"@ ==> {
            &&& n <= 12_582_912 ==> preview_refusal(style, path, true, true, Ok(n)) is None
            &&& n > 12_582_912 ==> preview_refusal(style, path, true, true, Ok(n)) is Some
            &&& preview_url(style, path, Ok(b)) == Ok::<Seq<char>, Seq<char>>(
                "data:image/jpeg;base64,"@ + base64(b),
            )
        },
        small_extension(style, path) == "jpeg"@ ==> {
            &&& n <= 12_582_912 ==> preview_refusal(style, path, true, true, Ok(n)) is None
            &&& n > 12_582_912 ==> preview_refusal(style, path, true, true, Ok(n)) is Some
            &&& preview_url(style, path, Ok(b)) == Ok::<Seq<char>, Seq<char>>(
                "data:image/jpeg;base64,"@ + base64(b),
            )
        },
        small_extension(style, path) == "gif"@ ==> {
            &&& n <= 12_582_912 ==> preview_refusal(style, path, true, true, Ok(n)) is None
            &&& n > 12_582_912 ==> preview_refusal(style, path, true, true, Ok(n)) is Some
            &&& preview_url(style, path, Ok(b)) == Ok::<Seq<char>, Seq<char>>(
                "data:image/gif;base64,"@ + base64(b),
            )
        },
        small_extension(style, path) == "webp"@ ==> {
            &&& n <= 12_582_912 ==> preview_refusal(style, path, true, true, Ok(n)) is None
            &&& n > 12_582_912 ==> preview_refusal(style, path, true, true, Ok(n)) is Some
            &&& preview_url(style, path, Ok(b)) == Ok::<Seq<char>, Seq<char>>(
                "data:image/webp;base64,"@ + base64(b),
            )
        },
        small_extension(style, path) == "bmp"@ ==> {
            &&& n <= 12_582_912 ==> preview_refusal(style, path, true, true, Ok(n)) is None
            &&& n > 12_582_912 ==> preview_refusal(style, path, true, true, Ok(n)) is Some
            &&& preview_url(style, path, Ok(b)) == Ok::<Seq<char>, Seq<char>>(
                "data:image/bmp;base64,"@ + base64(b),
            )
        },
        small_extension(style, path) == "ico"@ ==> {
            &&& n <= 12_582_912 ==> preview_refusal(style, path, true, true, Ok(n)) is None
            &&& n > 12_582_912 ==> preview_refusal(style, path, true, true, Ok(n)) is Some
            &&& preview_url(style, path, Ok(b)) == Ok::<Seq<char>, Seq<char>>(
                "data:image/x-icon;base64,"@ + base64(b),
            )
        },
        small_extension(style, path) == "pdf"@ ==> {
            &&& n <= 8_388_608 ==> preview_refusal(style, path, true, true, Ok(n)) is None
            &&& n > 8_388_608 ==> preview_refusal(style, path, true, true, Ok(n)) is Some
            &&& preview_url(style, path, Ok(b)) == Ok::<Seq<char>, Seq<char>>(
                "data:application/pdf;base64,"@ + base64(b),
            )
        },
        small_extension(style, path) == "mp4"@ ==> {
            &&& n <= 20_971_520 ==> preview_refusal(style, path, true, true, Ok(n)) is None
            &&& n > 20_971_520 ==> preview_refusal(style, path, true, true, Ok(n)) is Some
            &&& preview_url(style, path, Ok(b)) == Ok::<Seq<char>, Seq<char>>(
                "data:video/mp4;base64,"@ + base64(b),
            )
        },
        small_extension(style, path) == "webm"@ ==> {
            &&& n <= 20_971_520 ==> preview_refusal(style, path, true, true, Ok(n)) is None
            &&& n > 20_971_520 ==> preview_refusal(style, path, true, true, Ok(n)) is Some
            &&& preview_url(style, path, Ok(b)) == Ok::<Seq<char>, Seq<char>>(
                "data:video/webm;base64,"@ + base64(b),
            )
        },
        small_extension(style, path) == "mov"@ ==> {
            &&& n <= 20_971_520 ==> preview_refusal(style, path, true, true, Ok(n)) is None
            &&& n > 20_971_520 ==> preview_refusal(style, path, true, true, Ok(n)) is Some
            &&& preview_url(style, path, Ok(b)) == Ok::<Seq<char>, Seq<char>>(
                "data:video/quicktime;base64,"@ + base64(b),
            )
        },
        small_extension(style, path) == "m4v"@ ==> {
            &&& n <= 20_971_520 ==> preview_refusal(style, path, true, true, Ok(n)) is None
            &&& n > 20_971_520 ==> preview_refusal(style, path, true, true, Ok(n)) is Some
            &&& preview_url(style, path, Ok(b)) == Ok::<Seq<char>, Seq<char>>(
                "data:video/x-m4v;base64,"@ + base64(b),
            )
        },
        small_extension(style, path) == "avi"@ ==> {
            &&& n <= 20_971_520 ==> preview_refusal(style, path, true, true, Ok(n)) is None
            &&& n > 20_971_520 ==> preview_refusal(style, path, true, true, Ok(n)) is Some
            &&& preview_url(style, path, Ok(b)) == Ok::<Seq<char>, Seq<char>>(
                "data:video/x-msvideo;base64,"@ + base64(b),
            )
        },
        small_extension(style, path) == "mkv"@ ==> {
            &&& n <= 20_971_520 ==> preview_refusal(style, path, true, true, Ok(n)) is None
            &&& n > 20_971_520 ==> preview_refusal(style, path, true, true, Ok(n)) is Some
            &&& preview_url(style, path, Ok(b)) == Ok::<Seq<char>, Seq<char>>(
                "data:video/x-matroska;base64,"@ + base64(b),
            )
        },
        small_extension(style, path) == "wmv"@ ==> {
            &&& n <= 20_971_520 ==> preview_refusal(style, path, true, true, Ok(n)) is None
            &&& n > 20_971_520 ==> preview_refusal(style, path, true, true, Ok(n)) is Some
            &&& preview_url(style, path, Ok(b)) == Ok::<Seq<char>, Seq<char>>(
                "data:video/x-ms-wmv;base64,"@ + base64(b),
            )
        },
{
    lemma_extensions_differ();
    lemma_url_texts();
}

/// A file of any other kind is refused, whatever its size and contents.
pub proof fn law_no_other_kind_is_shown(
    style: PathStyle,
    path: Seq<char>,
    size: Result<u64, Seq<char>>,
    b: Result<Seq<u8>, Seq<char>>,
)
    requires
        small_extension(style, path) != "png"@,
        small_extension(style, path) != "jpg"@,
        small_extension(style, path) != "jpeg"@,
        small_extension(style, path) != "gif"@,
        small_extension(style, path) != "webp"@,
        small_extension(style, path) != "bmp"@,
        small_extension(style, path) != "ico"@,
        small_extension(style, path) != "pdf"@,
        small_extension(style, path) != "mp4"@,
        small_extension(style, path) != "webm"@,
        small_extension(style, path) != "mov"@,
        small_extension(style, path) != "m4v"@,
        small_extension(style, path) != "avi"@,
        small_extension(style, path) != "mkv"@,
        small_extension(style, path) != "wmv"@,
    ensures
        preview_refusal(style, path, true, true, size) == Some(
            "Preview not supported for this file type."@,
        ),
        preview_url(style, path, b) == Err::<Seq<char>, Seq<char>>(
            "Preview not supported for this file type."@,
        ),
{
}

/// The kind of a file is told by what stands behind the last dot of its name, in letters of either
/// case.
pub proof fn law_kind_of_a_file(style: PathStyle, dir: Seq<char>, stem: Seq<char>, ext: Seq<char>)
    requires
        style == PathStyle::Windows ==> paths::drive_prefix(style, dir),
        stem.len() > 0,
        paths::plain_name(stem + "."@ + ext),
        !ext.contains('.'),
    ensures
        small_extension(style, dir + seq![paths::main_sep(style)] + (stem + "."@ + ext))
            == text::lowercased(ext),
{
    paths::law_name_of_a_file(style, dir, stem, ext);
}

/// A file that is not there is refused before anything else, and so is what is no file.
pub proof fn law_missing_files_are_refused(
    style: PathStyle,
    path: Seq<char>,
    is_file: bool,
    size: Result<u64, Seq<char>>,
)
    ensures
        preview_refusal(style, path, false, is_file, size) == Some("Preview target does not exist."@),
        preview_refusal(style, path, true, false, size) == Some("Preview target is not a file."@),
{
}

/// A preview is never refused for its size below the limit, and always above it.
pub proof fn law_size_decides(style: PathStyle, path: Seq<char>, n: u64)
    requires
        mime_of(small_extension(style, path)) is Some,
    ensures
        preview_refusal(style, path, true, true, Ok(n)) is None <==> n <= size_limit(
            small_extension(style, path),
        ),
        8_388_608 <= size_limit(small_extension(style, path)) <= 20_971_520,
{
}

// ---- text ---------------------------------------------------------------------------------

/// How many bytes of a text are shown.
pub open spec fn text_bytes(max_bytes: Option<u64>) -> u64 {
    match max_bytes {
        Some(n) if n < MAX_TEXT_BYTES => n,
        Some(_) => MAX_TEXT_BYTES,
        None => TEXT_BYTES,
    }
}

/// A text is shown as far as was asked, up to one MiB; without a wish it is 64 KiB.
pub proof fn law_shown_part_of_a_text(n: u64)
    ensures
        text_bytes(None) == 64 * 1024,
        n <= 1024 * 1024 ==> text_bytes(Some(n)) == n,
        n > 1024 * 1024 ==> text_bytes(Some(n)) == 1024 * 1024,
{
}

/// How many bytes of a text are read.
pub fn text_preview_bytes(max_bytes: Option<u64>) -> (r: u64)
    ensures
        r == text_bytes(max_bytes),
        r == (match max_bytes {
            None => TEXT_BYTES,
            Some(n) => if n < MAX_TEXT_BYTES {
                n
            } else {
                MAX_TEXT_BYTES
            },
        }),
{
    match max_bytes {
        None => TEXT_BYTES,
        Some(n) => if n < MAX_TEXT_BYTES {
            n
        } else {
            MAX_TEXT_BYTES
        },
    }
}

/// The text of what was read, with what is not UTF-8 replaced.
pub fn load_preview_text(read: &Result<Vec<u8>, String>) -> (r: Result<String, String>)
    ensures
        match *read {
            Ok(b) => r matches Ok(t) && t@ == everything_ipc::lossy_text(b@),
            Err(m) => r matches Err(e) && e@ == "读取失败: "@ + m@,
        },
        (*read matches Ok(b) && vstd::utf8::valid_utf8(b@)) ==> (r matches Ok(t)
            && vstd::utf8::encode_utf8(t@) == read->Ok_0@),
{
    match read {
        Ok(b) => Ok(everything_ipc::utf8_lossy(b.as_slice())),
        Err(m) => {
            let mut e = text::copied("读取失败: ");
            e.push_str(m);
            Err(e)
        },
    }
}

// ---- what is known of a file without a preview --------------------------------------------

/// Seconds since 1970, where the time is known and not before.
pub open spec fn known_time(secs: Option<i64>) -> Option<i64> {
    match secs {
        Some(s) if s >= 0 => Some(s),
        _ => None,
    }
}

#[derive(Debug, Clone, Copy, PartialEq, Eq, Structural)]
pub struct PreviewFallbackFileInfo {
    pub size: u64,
    pub modified_unix: Option<i64>,
    pub created_unix: Option<i64>,
}

/// Size and times of the last change and of the creation, in seconds since 1970 rounded down.
#[derive(Debug, Clone, Copy, PartialEq, Eq, Structural)]
pub struct FileFacts {
    pub size: u64,
    pub modified: Option<i64>,
    pub created: Option<i64>,
}

fn time_if_known(secs: Option<i64>) -> (r: Option<i64>)
    ensures
        r == known_time(secs),
{
    match secs {
        Some(s) => {
            if s >= 0 {
                Some(s)
            } else {
                None
            }
        },
        None => None,
    }
}

pub open spec fn fallback_info(exists: bool, is_file: bool, facts: Result<FileFacts, Seq<char>>) -> Result<
    PreviewFallbackFileInfo,
    Seq<char>,
> {
    if !exists {
        Err("路径不存在"@)
    } else if !is_file {
        Err("不是文件"@)
    } else {
        match facts {
            Err(m) => Err("读取元数据失败: "@ + m),
            Ok(f) => Ok(
                PreviewFallbackFileInfo {
                    size: f.size,
                    modified_unix: known_time(f.modified),
                    created_unix: known_time(f.created),
                },
            ),
        }
    }
}

pub fn preview_fallback_file_info(exists: bool, is_file: bool, facts: &Result<FileFacts, String>) -> (r:
    Result<PreviewFallbackFileInfo, String>)
    ensures
        text::with_text(r) == fallback_info(exists, is_file, text::with_text(*facts)),
{
    if !exists {
        return Err(text::copied("路径不存在"));
    }
    if !is_file {
        return Err(text::copied("不是文件"));
    }
    match facts {
        Err(m) => {
            let mut e = text::copied("读取元数据失败: ");
            e.push_str(m);
            Err(e)
        },
        Ok(f) => Ok(
            PreviewFallbackFileInfo {
                size: f.size,
                modified_unix: time_if_known(f.modified),
                created_unix: time_if_known(f.created),
            },
        ),
    }
}

/// What is shown of a file without a preview: its size and the times that are known and not before
/// 1970, each as it was found.
pub proof fn law_facts_without_a_preview(f: FileFacts, m: Seq<char>, is_file: bool)
    ensures
        fallback_info(false, is_file, Ok(f)) == Err::<PreviewFallbackFileInfo, Seq<char>>(
            "路径不存在"@,
        ),
        fallback_info(true, false, Ok(f)) == Err::<PreviewFallbackFileInfo, Seq<char>>(
            "不是文件"@,
        ),
        fallback_info(true, true, Err(m)) == Err::<PreviewFallbackFileInfo, Seq<char>>(
            "读取元数据失败: "@ + m,
        ),
        fallback_info(true, true, Ok(f)) matches Ok(r) && {
            &&& r.size == f.size
            &&& f.modified matches Some(t) ==> (t >= 0 ==> r.modified_unix == Some(t)) && (t < 0
                ==> r.modified_unix is None)
            &&& f.created matches Some(t) ==> (t >= 0 ==> r.created_unix == Some(t)) && (t < 0
                ==> r.created_unix is None)
            &&& f.modified is None ==> r.modified_unix is None
            &&& f.created is None ==> r.created_unix is None
        },
{
}

/// The 64 letters, in the order of what they stand for.
pub open spec fn alphabet() -> Seq<char> {
    "ABCDEFGHIJKLMNOPQRSTUVWXYZabcdefghijklmnopqrstuvwxyz0123456789+/"@
}

proof fn lemma_letter(n: int)
    requires
        0 <= n < 64,
    ensures
        base64_letter(n) == alphabet()[n],
{
    reveal_strlit("ABCDEFGHIJKLMNOPQRSTUVWXYZabcdefghijklmnopqrstuvwxyz0123456789+/");
}

/// Three bytes are one number of 24 bits, and that number is written in four letters of six bits
/// each. Where bytes are missing at the end, zeros stand for their bits and signs for the letters
/// that hold none of what is there.
pub proof fn law_letters_of_three_bytes(x: u8, y: u8, z: u8, rest: Seq<u8>)
    ensures
        ({
            let n = x as int * 0x1_0000 + y as int * 0x100 + z as int;
            let a = alphabet();
            base64(seq![x, y, z] + rest) == seq![
                a[n / 0x4_0000],
                a[n / 0x1000 % 64],
                a[n / 64 % 64],
                a[n % 64],
            ] + base64(rest)
        }),
        ({
            let n = x as int * 0x1_0000 + y as int * 0x100;
            let a = alphabet();
            base64(seq![x, y]) == seq![
                a[n / 0x4_0000],
                a[n / 0x1000 % 64],
                a[n / 64 % 64],
                '=',
            ]
        }),
        ({
            let n = x as int * 0x1_0000;
            let a = alphabet();
            base64(seq![x]) == seq![a[n / 0x4_0000], a[n / 0x1000 % 64], '=', '=']
        }),
        base64(Seq::empty()) == Seq::<char>::empty(),
{
    let all = seq![x, y, z] + rest;
    assert(all.take(3) =~= seq![x, y, z]);
    assert(all.skip(3) =~= rest);
    if rest.len() == 0 {
        assert(all =~= seq![x, y, z]);
        assert(base64(rest) =~= Seq::empty());
        assert(base64_group(all) + base64(rest) =~= base64_group(all));
    }
    lemma_letter(x as int / 4);
    lemma_letter((x as int % 4) * 16 + y as int / 16);
    lemma_letter((x as int % 4) * 16);
    lemma_letter((y as int % 16) * 4 + z as int / 64);
    lemma_letter((y as int % 16) * 4);
    lemma_letter(z as int % 64);
    let n = x as int * 0x1_0000 + y as int * 0x100 + z as int;
    assert(n / 0x4_0000 == x as int / 4);
    assert(n / 0x1000 == x as int * 16 + y as int / 16);
    assert((x as int * 16 + y as int / 16) % 64 == (x as int % 4) * 16 + y as int / 16);
    assert(n / 64 == x as int * 1024 + y as int * 4 + z as int / 64);
    assert((x as int * 1024 + y as int * 4 + z as int / 64) % 64 == (y as int % 16) * 4 + z as int
        / 64);
    assert(n % 64 == z as int % 64);
    let m = x as int * 0x1_0000 + y as int * 0x100;
    assert(m / 0x4_0000 == x as int / 4);
    assert(m / 0x1000 == x as int * 16 + y as int / 16);
    assert(m / 64 == x as int * 1024 + y as int * 4);
    assert((x as int * 1024 + y as int * 4) % 64 == (y as int % 16) * 4);
    let k = x as int * 0x1_0000;
    assert(k / 0x4_0000 == x as int / 4);
    assert(k / 0x1000 == x as int * 16);
    assert((x as int * 16) % 64 == (x as int % 4) * 16);
    assert(base64_group(seq![x, y]) =~= base64(seq![x, y]));
    assert(base64_group(seq![x]) =~= base64(seq![x]));
}

} // verus!
