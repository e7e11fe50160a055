//! Downloading an installer and starting it: what is refused, when progress is reported, and how
//! a download ends.
use vstd::prelude::*;
use crate::paths::{self, PathStyle};
use crate::text;

verus! {

/// Progress is reported at most every so many nanoseconds.
pub const REPORT_NANOS: u128 = 200_000_000;

/// Smaller files are no installers.
pub const MIN_INSTALLER_BYTES: u64 = 1_048_576;

/// The last part of an address.
pub open spec fn asset_name(url: Seq<char>) -> Seq<char> {
    match text::after_last(url, '/') {
        Some(n) => n,
        None => url,
    }
}

/// Whether a download may begin: the address without white space around it and the name of the
/// file, or why not.
pub fn download_app_update(url: &str, active: bool) -> (r: Result<(String, String), String>)
    ensures
        ({
            let u = text::trimmed(url@);
            match r {
                Ok(p) => text::begins_with(u, "https://"@) && !active && p.0@ == u && p.1@
                    == asset_name(u),
                Err(e) => if !text::begins_with(u, "https://"@) {
                    e@ == "下载地址不是 https 链接，已拒绝。"@
                } else {
                    active && e@ == "已有下载任务在进行中。"@
                },
            }
        }),
{
    let u = text::trim(url);
    if !text::starts_with(&u, "https://") {
        return Err(text::copied("下载地址不是 https 链接，已拒绝。"));
    }
    if active {
        return Err(text::copied("已有下载任务在进行中。"));
    }
    let name = match text::split_last(&u, '/') {
        Some((_, n)) => n,
        None => text::copied(&u),
    };
    Ok((u, name))
}

/// The length that the answer announces; 0 where it announces none.
pub open spec fn announced(header: Option<Seq<char>>) -> u64 {
    match header {
        Some(h) => match text::number(text::trimmed(h)) {
            Some(n) => n,
            None => 0,
        },
        None => 0,
    }
}

/// Why the answer to a download is refused, if it is.
pub open spec fn refused_answer(
    status: u16,
    total: u64,
    expected: Option<u64>,
) -> Option<Seq<char>> {
    if status < 200 || status >= 300 {
        Some("下载返回 HTTP "@ + text::decimal(status as nat))
    } else if total == 0 {
        Some("响应缺少 Content-Length，无法校验完整性，已中止。"@)
    } else {
        match expected {
            Some(n) if n != 0 && n != total => Some(
                "安装包大小与发行信息不一致（元数据 "@ + text::decimal(n as nat)
                    + " B，实际 "@ + text::decimal(total as nat) + " B），已中止。"@,
            ),
            _ => None,
        }
    }
}

/// Begins a download with its answer, or says why the answer is refused.
pub fn run_download(
    status: u16,
    content_length: Option<&str>,
    expected: Option<u64>,
    now: u128,
) -> (r: Result<Download, String>)
    ensures
        ({
            let total = announced(
                match content_length {
                    Some(h) => Some(h@),
                    None => None,
                },
            );
            match r {
                Ok(d) => d == (Download { total, downloaded: 0, last_report: now })
                    && refused_answer(status, total, expected) is None,
                Err(e) => refused_answer(status, total, expected) == Some(e@),
            }
        }),
{
    if status < 200 || status >= 300 {
        let mut e = text::copied("下载返回 HTTP ");
        e.push_str(&text::decimal_text(status as u64));
        return Err(e);
    }
    let total: u64 = match content_length {
        Some(h) => {
            let t = text::trim(h);
            match text::parse_number(&t) {
                Some(n) => n,
                None => 0,
            }
        },
        None => 0,
    };
    if total == 0 {
        return Err(
            text::copied("响应缺少 Content-Length，无法校验完整性，已中止。"),
        );
    }
    match expected {
        Some(n) => {
            if n != 0 && n != total {
                let mut e = text::copied("安装包大小与发行信息不一致（元数据 ");
                e.push_str(&text::decimal_text(n));
                e.push_str(" B，实际 ");
                e.push_str(&text::decimal_text(total));
                e.push_str(" B），已中止。");
                return Err(e);
            }
        },
        None => {},
    }
    Ok(Download { total, downloaded: 0, last_report: now })
}

/// A download under way. Times are nanoseconds of a clock that does not run backwards.
#[derive(Debug, Clone, Copy, PartialEq, Eq, Structural)]
pub struct Download {
    pub total: u64,
    pub downloaded: u64,
    pub last_report: u128,
}

impl Download {
    /// So many bytes came and were written: whether to report progress now.
    pub fn on_chunk(&mut self, bytes: u64, now: u128) -> (report: bool)
        requires
            old(self).downloaded + bytes <= u64::MAX,
        ensures
            report == (now >= old(self).last_report && now - old(self).last_report
                >= REPORT_NANOS),
            *final(self) == (Download {
                total: old(self).total,
                downloaded: (old(self).downloaded + bytes) as u64,
                last_report: if report {
                    now
                } else {
                    old(self).last_report
                },
            }),
    {
        self.downloaded = self.downloaded + bytes;
        if now >= self.last_report && now - self.last_report >= REPORT_NANOS {
            self.last_report = now;
            true
        } else {
            false
        }
    }

    /// The data has ended: all of it must have come. Else there is an error, and whether the file
    /// is deleted, which it is.
    pub fn on_end(&self) -> (r: Result<(), (String, bool)>)
        ensures
            match r {
                Ok(_) => self.downloaded == self.total,
                Err((e, remove)) => self.downloaded != self.total && remove && e@
                    == "下载数据不完整（"@ + text::decimal(self.downloaded as nat) + "/"@
                    + text::decimal(self.total as nat) + " B），已删除临时文件。"@,
            },
    {
        if self.downloaded == self.total {
            return Ok(());
        }
        let mut e = text::copied("下载数据不完整（");
        e.push_str(&text::decimal_text(self.downloaded));
        e.push_str("/");
        e.push_str(&text::decimal_text(self.total));
        e.push_str(" B），已删除临时文件。");
        Err((e, true))
    }
}

/// What breaks a download off.
#[derive(Debug)]
pub enum DownloadFailure {
    Request(String),
    Create { path: String, reason: String },
    Cancelled,
    Read(String),
    Write(String),
}

pub open spec fn failure_text(f: DownloadFailure) -> Seq<char> {
    match f {
        DownloadFailure::Request(e) => "请求下载失败："@ + e@,
        DownloadFailure::Create { path, reason } => "创建临时文件失败（"@ + path@ + "）："@
            + reason@,
        DownloadFailure::Cancelled => "已取消下载。"@,
        DownloadFailure::Read(e) => "读取下载流失败："@ + e@,
        DownloadFailure::Write(e) => "写入临时文件失败："@ + e@,
    }
}

/// The text of a failure, and whether the file is deleted: only a cancelled download leaves
/// nothing behind.
pub fn run_download_failed(f: &DownloadFailure) -> (r: (String, bool))
    ensures
        r.0@ == failure_text(*f),
        r.1 == (*f is Cancelled),
{
    match f {
        DownloadFailure::Request(e) => {
            let mut s = text::copied("请求下载失败：");
            s.push_str(e);
            (s, false)
        },
        DownloadFailure::Create { path, reason } => {
            let mut s = text::copied("创建临时文件失败（");
            s.push_str(path);
            s.push_str("）：");
            s.push_str(reason);
            (s, false)
        },
        DownloadFailure::Cancelled => (text::copied("已取消下载。"), true),
        DownloadFailure::Read(e) => {
            let mut s = text::copied("读取下载流失败：");
            s.push_str(e);
            (s, false)
        },
        DownloadFailure::Write(e) => {
            let mut s = text::copied("写入临时文件失败：");
            s.push_str(e);
            (s, false)
        },
    }
}

// ---- installing ---------------------------------------------------------------------------

/// The path of an installer without white space and quotes around it.
pub fn installer_path(path: &str) -> (r: String)
    ensures
        r@ == text::stripped(text::trimmed(path@), '"'),
{
    let t = text::trim(path);
    text::trim_matches(&t, '"')
}

/// Why an installer is not started, if it is not; `size` is its size or why it cannot be read.
pub open spec fn refused_installer(
    path: Seq<char>,
    exists: bool,
    size: Result<u64, Seq<char>>,
) -> Option<Seq<char>> {
    let exe = paths::extension_of(PathStyle::Windows, path) matches Some(e) && text::lowercased(e)
        == "exe"@;
    if !exists {
        Some("安装包不存在："@ + path)
    } else if !exe {
        Some("只允许启动 .exe 安装包。"@)
    } else {
        match size {
            Err(e) => Some(e),
            Ok(n) => if n < MIN_INSTALLER_BYTES {
                Some(
                    "安装包大小异常（"@ + text::decimal(n as nat) + " B），拒绝执行。"@,
                )
            } else {
                None
            },
        }
    }
}

/// Whether the installer at `path` may be started.
pub fn install_downloaded_update(path: &str, exists: bool, size: Result<u64, String>) -> (r: Result<
    (),
    String,
>)
    ensures
        ({
            let s = match size {
                Ok(n) => Ok(n),
                Err(e) => Err(e@),
            };
            match r {
                Ok(_) => refused_installer(path@, exists, s) is None,
                Err(e) => refused_installer(path@, exists, s) == Some(e@),
            }
        }),
{
    if !exists {
        let mut e = text::copied("安装包不存在：");
        e.push_str(path);
        return Err(e);
    }
    let exe = match paths::extension(PathStyle::Windows, path) {
        Some(e) => {
            let l = text::to_lower(&e);
            text::same_text(&l, "exe")
        },
        None => false,
    };
    if !exe {
        return Err(text::copied("只允许启动 .exe 安装包。"));
    }
    match size {
        Err(e) => Err(e),
        Ok(n) => {
            if n < MIN_INSTALLER_BYTES {
                let mut e = text::copied("安装包大小异常（");
                e.push_str(&text::decimal_text(n));
                e.push_str(" B），拒绝执行。");
                Err(e)
            } else {
                Ok(())
            }
        },
    }
}

/// The arguments of the installer.
pub fn installer_args() -> (r: String)
    ensures
        r@ == "/VERYSILENT /SUPPRESSMSGBOXES /NORESTART"@,
{
    text::copied("/VERYSILENT /SUPPRESSMSGBOXES /NORESTART")
}

/// A download that ends well has brought exactly the length that was announced, and that is the
/// length of the release where it is known.
pub proof fn law_complete_download(
    status: u16,
    header: Option<Seq<char>>,
    expected: Option<u64>,
    d: Download,
)
    requires
        refused_answer(status, announced(header), expected) is None,
        d.total == announced(header),
        d.downloaded == d.total,
    ensures
        d.downloaded > 0,
        expected matches Some(n) ==> (n != 0 ==> d.downloaded == n),
{
}

/// A download begins exactly where the server answers with success, says how much is coming, and
/// says as much as the release does.
pub proof fn law_accepted_answers(status: u16, total: u64, expected: Option<u64>)
    ensures
        refused_answer(status, total, expected) is None <==> 200 <= status < 300 && total > 0 && (
        expected matches Some(n) ==> n == 0 || n == total),
{
}

/// Only an `.exe` that is there and has at least a megabyte is run.
pub proof fn law_accepted_installers(path: Seq<char>, exists: bool, n: u64)
    ensures
        refused_installer(path, exists, Ok(n)) is None <==> exists && n >= 1_048_576 && (
        paths::extension_of(PathStyle::Windows, path) matches Some(e) && text::lowercased(e)
            == "exe"@),
{
}

/// The name of what is downloaded is what stands behind the last slash of its address.
pub proof fn law_name_of_a_download(head: Seq<char>, name: Seq<char>)
    requires
        !name.contains('/'),
    ensures
        asset_name(head + seq!['/'] + name) == name,
        asset_name(name) == name,
    decreases name.len(),
{
    text::law_last_piece(name, '/');
    let url = head + seq!['/'] + name;
    if name.len() == 0 {
        assert(url.last() == '/');
        assert(asset_name(url) =~= name);
    } else {
        let t = name.drop_last();
        assert(!t.contains('/')) by {
            if t.contains('/') {
                let k = choose|k: int| 0 <= k < t.len() && t[k] == '/';
                assert(name[k] == '/');
            }
        }
        law_name_of_a_download(head, t);
        assert(url.drop_last() =~= head + seq!['/'] + t);
        assert(name[name.len() - 1] == name.last());
        assert(url.last() == name.last());
        text::law_last_piece(url.drop_last(), '/');
        assert(url.drop_last()[head.len() as int] == '/');
        assert(t.push(name.last()) =~= name);
    }
}

/// Each way in which a download fails is told with what is known of it.
pub proof fn law_failed_downloads(f: DownloadFailure)
    ensures
        f matches DownloadFailure::Request(e) ==> failure_text(f) == "请求下载失败："@ + e@,
        f matches DownloadFailure::Create { path, reason } ==> failure_text(f)
            == "创建临时文件失败（"@ + path@ + "）："@ + reason@,
        f is Cancelled ==> failure_text(f) == "已取消下载。"@,
        f matches DownloadFailure::Read(e) ==> failure_text(f) == "读取下载流失败："@ + e@,
        f matches DownloadFailure::Write(e) ==> failure_text(f) == "写入临时文件失败："@ + e@,
{
}

} // verus!
