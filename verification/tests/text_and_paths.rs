use findx2::clsid;
use findx2::elevate;
use findx2::paths::{self, PathStyle};
use findx2::text;

const W: PathStyle = PathStyle::Windows;
const U: PathStyle = PathStyle::Unix;

#[test]
fn trimming() {
    for s in ["", " a ", "\u{3000}中\u{a0}", "x", " \t\r\n"] {
        assert_eq!(text::trim(s), s.trim());
        assert_eq!(text::trim(&text::trim(s)), s.trim());
    }
    assert_eq!(text::trim_end_of("a\\\\", '\\'), "a");
    assert_eq!(text::trim_start_of("{{a{", '{'), "a{");
    assert_eq!(text::trim_matches("\"\"a\"", '"'), "a");
}

#[test]
fn letters_and_searching() {
    assert_eq!(text::to_upper("aZ中é1"), "AZ中é1");
    assert_eq!(text::to_lower("aZ中É1"), "az中É1");
    assert!(text::equals_ignoring_case("NTFS", "ntfs"));
    assert!(!text::equals_ignoring_case("é", "É"));
    assert!(text::starts_with("abc", "ab") && !text::starts_with("a", "ab"));
    assert!(text::ends_with("abc", "bc") && !text::ends_with("c", "bc"));
    assert!(text::contains("xabcx", "abc") && text::contains("a", "") && !text::contains("ab", "ba"));
    assert!(text::has_char("a/b", '/') && !text::has_char("ab", '/'));
    assert_eq!(text::replace_char("a'b'", '\'', "''"), "a''b''");
    assert!(text::same_text("ab", "ab") && !text::same_text("ab", "abc"));
}

#[test]
fn splitting_and_joining() {
    assert_eq!(text::split("a,,b", ','), vec!["a", "", "b"]);
    assert_eq!(text::split("", ','), vec![""]);
    assert_eq!(text::join(&text::split("a,,b", ','), ","), "a,,b");
    assert_eq!(text::split_last("a\\b\\c", '\\'), Some(("a\\b".to_string(), "c".to_string())));
    assert_eq!(text::split_last("abc", '\\'), None);
    assert_eq!(text::copied_all(&vec!["x".to_string()]), vec!["x"]);
    assert_eq!(text::copied_opt(&Some("x".to_string())), Some("x".to_string()));
}

#[test]
fn numbers_and_their_texts() {
    for n in [0u64, 9, 10, 12345, u64::MAX] {
        assert_eq!(text::decimal_text(n), n.to_string());
        assert_eq!(text::parse_number(&n.to_string()), Some(n));
    }
    assert_eq!(text::signed_decimal_text(i64::MIN), i64::MIN.to_string());
    assert_eq!(text::signed_decimal_text(-7), "-7");
    assert_eq!(text::parse_number("18446744073709551616"), None);
    assert_eq!(text::parse_number(""), None);
    assert_eq!(text::parse_number("1a"), None);
    assert_eq!(text::parse_number("007"), Some(7));
}

#[test]
fn windows_paths() {
    assert!(paths::is_absolute(W, "C:\\x") && paths::is_absolute(W, "\\\\s\\h\\x"));
    assert!(!paths::is_absolute(W, "C:x") && !paths::is_absolute(W, "\\x") && !paths::is_absolute(W, "x"));
    assert_eq!(paths::join(W, "C:\\a", "b"), "C:\\a\\b");
    assert_eq!(paths::join(W, "C:\\a\\", "b"), "C:\\a\\b");
    assert_eq!(paths::join(W, "C:\\a", "D:\\b"), "D:\\b");
    assert_eq!(paths::join(W, "C:\\a", "\\b"), "C:\\b");
    assert_eq!(paths::parent(W, "C:\\a\\b"), Some("C:\\a".to_string()));
    assert_eq!(paths::parent(W, "C:\\a"), Some("C:\\".to_string()));
    assert_eq!(paths::parent(W, "C:\\"), None);
    assert_eq!(paths::file_name(W, "C:\\a\\b.txt"), Some("b.txt".to_string()));
    assert_eq!(paths::file_name(W, "C:\\"), None);
    assert_eq!(paths::extension(W, "C:\\a.b\\c.Tar.GZ"), Some("GZ".to_string()));
    assert_eq!(paths::extension(W, ".hidden"), None);
    assert_eq!(paths::with_extension(W, "C:\\x\\index.bin", "indexing.json"), "C:\\x\\index.indexing.json");
    assert!(paths::equal_paths(W, "C:/a/./b", "c:\\a\\b\\"));
    assert!(!paths::equal_paths(W, "C:\\a", "C:\\A"));
}

#[test]
fn unix_paths() {
    assert!(paths::is_absolute(U, "/x") && !paths::is_absolute(U, "x"));
    assert_eq!(paths::join(U, "/a", "b"), "/a/b");
    assert_eq!(paths::join(U, "/a", "/b"), "/b");
    assert_eq!(paths::parent(U, "/a/b/"), Some("/a".to_string()));
    assert_eq!(paths::file_name(U, "/a/.."), None);
    assert_eq!(paths::extension(U, "/a/b.c"), Some("c".to_string()));
    assert_eq!(
        std::path::Path::new("/a/b/").parent().map(|p| p.display().to_string()),
        paths::parent(U, "/a/b/")
    );
}

#[test]
fn arguments_are_quoted() {
    assert_eq!(elevate::quote_arg("plain"), "plain");
    assert_eq!(elevate::quote_arg("a b"), "\"a b\"");
    assert_eq!(
        elevate::index_cli_args_to_shell_params(&vec!["index".to_string(), "C:\\a b".to_string()]),
        "index \"C:\\a b\""
    );
    assert!(elevate::succeeded(Some(0)));
    assert!(!elevate::succeeded(Some(1)));
}

#[test]
fn class_identifiers_round_trip() {
    let s = "{8895b1c6-b41f-4c1c-a562-0d564250836f}";
    let id = clsid::parse_clsid(s).unwrap();
    assert_eq!((id.data1, id.data2, id.data3), (0x8895_b1c6, 0xb41f, 0x4c1c));
    assert_eq!(id.data4, [0xa5, 0x62, 0x0d, 0x56, 0x42, 0x50, 0x83, 0x6f]);
    assert_eq!(clsid::format_clsid(&id), s.to_uppercase());
    assert_eq!(clsid::parse_clsid(&clsid::format_clsid(&id)), Some(id));
    assert_eq!(clsid::parse_clsid(" 8895B1C6-B41F-4C1C-A562-0D564250836F "), Some(id));
    for bad in ["", "{}", "8895b1c6b41f4c1ca5620d564250836f", "8895b1c6-b41f-4c1c-a562-0d564250836g", "8895b1c6-b41f-4c1c-a562-0d5642508é"] {
        assert_eq!(clsid::parse_clsid(bad), None, "{bad}");
    }
    assert_eq!(clsid::short_hex_text(0x4_0004), "40004");
    assert_eq!(clsid::short_hex_text(0), "0");
    assert_eq!(clsid::short_hex_text(0xABCDEF), "abcdef");
}

#[test]
fn literal_paths_have_their_dots_worked_out() {
    let w = |b: &str, p: &str| paths::join(PathStyle::Windows, b, p);
    assert_eq!(w("\\\\?\\C:\\a\\\\", "b"), "\\\\?\\C:\\a\\b");
    assert_eq!(w("\\\\?\\C:\\a", "..\\b"), "\\\\?\\C:\\b");
    assert_eq!(w("\\\\?\\C:\\", ".."), "\\\\?\\C:\\");
    assert_eq!(w("\\\\?\\C:\\a", "/x/./y"), "\\\\?\\C:\\x\\y");
    assert_eq!(w("\\\\?\\C:", "x"), "\\\\?\\C:\\x");
    assert_eq!(w("\\\\?\\C:\\a", ""), "\\\\?\\C:\\a\\");
    assert_eq!(w("\\\\?\\UNC\\s\\h\\a", "b/c"), "\\\\?\\UNC\\s\\h\\a\\b\\c");
    assert_eq!(w("\\\\?\\C:\\a\\.", ".."), "\\\\?\\C:\\a\\.");
    assert_eq!(w("\\\\?\\C:\\a", "D:\\b"), "D:\\b");
}

#[test]
fn programs_with_more_rights_report_their_end() {
    let ran = |launched: Result<(), String>, has_handle, exit_code: Result<u32, String>, closed: Result<(), String>| {
        elevate::RunAs { launched, has_handle, exit_code, closed }
    };
    let e = || Err("x".to_string());
    assert_eq!(elevate::shell_execute_runas(true, &ran(Ok(()), true, Ok(3), Ok(()))), Ok(Some(3)));
    assert_eq!(elevate::shell_execute_runas(false, &ran(Ok(()), false, Ok(3), Ok(()))), Ok(None));
    let text = |r: elevate::RunAs| elevate::shell_execute_runas(true, &r).unwrap_err();
    assert_eq!(text(ran(e(), true, Ok(0), Ok(()))), "UAC 启动失败: x");
    assert_eq!(text(ran(Ok(()), false, Ok(0), Ok(()))), "未能获取提权子进程句柄");
    assert_eq!(text(ran(Ok(()), true, Err("x".to_string()), Ok(()))), "读取退出码失败: x");
    assert_eq!(text(ran(Ok(()), true, Ok(0), e())), "CloseHandle: x");
}
