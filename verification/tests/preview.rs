use findx2::paths::PathStyle;
use findx2::preview_data::{self, FileFacts};
use findx2::preview_handler::{
    self, ClassKeys, ClsidInfo, CreateNext, CreateRun, HydrateNext, Hydration, InitFault, InitRun, InitWay, RegDefault,
};
use findx2::win_preview::{self, Bounds, ChildWindow, ClientRect, Place, PreviewState, ShowStage, ShowStart, StageResult};

const W: PathStyle = PathStyle::Windows;
const ID: &str = "{8895b1c6-b41f-4c1c-a562-0d564250836f}";

// ---- previews that the window draws -------------------------------------------------------

#[test]
fn data_urls_hold_base64() {
    let url = |p: &str, b: &[u8]| preview_data::load_preview_data_url(W, p, &Ok(b.to_vec()));
    assert_eq!(url("C:\\a.PNG", b"").unwrap(), "data:image/png;base64,");
    assert_eq!(url("a.jpg", b"f").unwrap(), "data:image/jpeg;base64,Zg==");
    assert_eq!(url("a.jpeg", b"fo").unwrap(), "data:image/jpeg;base64,Zm8=");
    assert_eq!(url("a.pdf", b"foo").unwrap(), "data:application/pdf;base64,Zm9v");
    assert_eq!(url("a.mkv", b"foobar").unwrap(), "data:video/x-matroska;base64,Zm9vYmFy");
    assert_eq!(url("a.gif", &[0xFB, 0xFF, 0xFE]).unwrap(), "data:image/gif;base64,+//+");
    assert_eq!(url("a.txt", b"x").unwrap_err(), "Preview not supported for this file type.");
    assert_eq!(
        preview_data::load_preview_data_url(W, "a.png", &Err("io".into())).unwrap_err(),
        "Preview read failed: io"
    );
}

#[test]
fn large_files_are_not_previewed() {
    let check = |p: &str, n: u64| preview_data::check_preview(W, p, true, true, &Ok(n));
    assert!(check("a.pdf", 8 << 20).is_ok());
    assert_eq!(check("a.pdf", (8 << 20) + 1).unwrap_err(), "Preview skipped: file too large (8388609 bytes).");
    assert!(check("a.mp4", 20 << 20).is_ok());
    assert!(check("a.png", (12 << 20) + 1).is_err());
    let say = |there, file, size: Result<u64, String>| {
        preview_data::check_preview(W, "a.png", there, file, &size).unwrap_err()
    };
    assert_eq!(say(false, true, Ok(1)), "Preview target does not exist.");
    assert_eq!(say(true, false, Ok(1)), "Preview target is not a file.");
    assert_eq!(say(true, true, Err("e".into())), "Preview metadata read failed: e");
    assert_eq!(
        preview_data::check_preview(W, "a.zip", true, true, &Ok(1)).unwrap_err(),
        "Preview not supported for this file type."
    );
}

#[test]
fn text_previews_are_bounded() {
    assert_eq!(preview_data::text_preview_bytes(None), 65_536);
    assert_eq!(preview_data::text_preview_bytes(Some(10)), 10);
    assert_eq!(preview_data::text_preview_bytes(Some(u64::MAX)), 1_048_576);
    assert_eq!(preview_data::load_preview_text(&Ok("中a".as_bytes().to_vec())).unwrap(), "中a");
    assert_eq!(preview_data::load_preview_text(&Ok(vec![b'a', 0xFF])).unwrap(), "a\u{FFFD}");
    assert_eq!(preview_data::load_preview_text(&Err("e".into())).unwrap_err(), "读取失败: e");
}

#[test]
fn facts_stand_in_for_a_preview() {
    let f = FileFacts { size: 5, modified: Some(7), created: Some(-1) };
    let i = preview_data::preview_fallback_file_info(true, true, &Ok(f)).unwrap();
    assert_eq!((i.size, i.modified_unix, i.created_unix), (5, Some(7), None));
    assert_eq!(preview_data::preview_fallback_file_info(false, true, &Ok(f)).unwrap_err(), "路径不存在");
    assert_eq!(preview_data::preview_fallback_file_info(true, false, &Ok(f)).unwrap_err(), "不是文件");
    assert_eq!(
        preview_data::preview_fallback_file_info(true, true, &Err("e".into())).unwrap_err(),
        "读取元数据失败: e"
    );
}

// ---- finding the handler ------------------------------------------------------------------

fn key(k: &str, value: &str) -> RegDefault {
    RegDefault { key: k.to_string(), value: value.to_string() }
}

fn shellex(k: &str) -> String {
    format!("{k}\\shellex\\{ID}")
}

#[test]
fn handlers_are_found_in_order() {
    let a = "{00000001-0000-0000-0000-000000000000}";
    let b = "{00000002-0000-0000-0000-000000000000}";
    let c = "{00000003-0000-0000-0000-000000000000}";
    let all = vec![
        key(&shellex(".txt"), a),
        key(".txt", "txtfile"),
        key(&shellex("txtfile"), b),
        key(&shellex("SystemFileAssociations\\.txt"), c),
    ];
    let found = |reg: &Vec<RegDefault>| preview_handler::find_preview_handler_clsid("C:\\x.TXT", reg).map(|c| c.data1);
    assert_eq!(found(&all), Some(1));
    let mut no_direct = vec![key(&shellex(".txt"), "nonsense")];
    no_direct.extend(all.into_iter().skip(1));
    assert_eq!(found(&no_direct), Some(2));
    assert_eq!(found(&vec![key(".txt", "t"), key(&shellex("SystemFileAssociations\\.txt"), c)]), Some(3));
    assert_eq!(found(&vec![]), None);
    assert!(preview_handler::find_preview_handler_clsid("C:\\noext", &no_direct).is_none());
    let machine = vec![key(&format!("SOFTWARE\\Classes\\{}", shellex(".txt")), b)];
    let m = preview_handler::find_preview_handler_clsid_hklm("C:\\x.txt", &machine).unwrap();
    assert_eq!(m.data1, 2);
    let p = preview_handler::find_preview_handler_clsid("C:\\x.txt", &vec![key(&shellex(".txt"), b)]).unwrap();
    assert!(preview_handler::fallback_handler(&p, Some(m)).is_none());
    let other = preview_handler::find_preview_handler_clsid("C:\\x.txt", &vec![key(&shellex(".txt"), a)]).unwrap();
    assert_eq!(preview_handler::fallback_handler(&other, Some(m)), Some(m));
}

#[test]
fn registry_values_are_trimmed() {
    let mut buf: Vec<u16> = " txtfile ".encode_utf16().collect();
    buf.resize(256, 0);
    assert_eq!(preview_handler::registry_default(&buf, 20).as_deref(), Some("txtfile"));
    assert_eq!(preview_handler::registry_default(&buf, 2), None);
    assert_eq!(preview_handler::registry_default(&buf, 0), None);
    assert_eq!(preview_handler::registry_default(&buf[..5], 5000).as_deref(), Some("txtf"));
    assert_eq!(preview_handler::class_key(ID, ""), format!("CLSID\\{ID}"));
    assert_eq!(preview_handler::class_key(ID, "LocalServer32"), format!("CLSID\\{ID}\\LocalServer32"));
}

fn keys(class: bool, inproc: bool, local: bool, handler: bool) -> ClassKeys {
    ClassKeys { class, inproc_server: inproc, local_server: local, inproc_handler: handler }
}

#[test]
fn handlers_run_in_their_own_process_first() {
    let none = keys(false, false, false, false);
    let i = preview_handler::probe_clsid(keys(true, true, false, false), none);
    assert!(i.has_64 && !i.has_32 && i.has_inproc_server && !i.handler_only);
    assert_eq!(preview_handler::create_contexts(i), vec![0x8_0004, 0x4, 0x8_0001, 0x1]);
    let i = preview_handler::probe_clsid(none, keys(true, false, false, true));
    assert!(i.handler_only && i.has_32);
    assert_eq!(preview_handler::create_contexts(i), vec![0x4_0004, 0x4]);
    let both = ClsidInfo { has_64: true, has_32: true, has_inproc_server: true, has_local_server: true, handler_only: false };
    assert_eq!(
        preview_handler::create_contexts(both),
        vec![0x8_0004, 0x4_0004, 0x4, 0x8_0001, 0x4_0001, 0x1]
    );
}

#[test]
fn busy_handlers_are_tried_again() {
    let info = ClsidInfo { has_64: false, has_32: false, has_inproc_server: false, has_local_server: false, handler_only: true };
    let mut run = CreateRun::new(info);
    assert_eq!(run.context(), 0x4);
    assert!(preview_handler::is_com_server_busy(0x8001_010A));
    for _ in 0..5 {
        assert!(matches!(run.on_failure(0x8001_010A, "busy"), CreateNext::Again(80)));
    }
    assert!(matches!(run.on_failure(0x8001_010A, "busy"), CreateNext::GiveUp(e) if e == "ctx=0x4: busy"));
    let mut run = CreateRun::new(ClsidInfo { handler_only: false, ..info });
    assert!(matches!(run.on_failure(5, "no"), CreateNext::NextContext));
    assert_eq!(run.context(), 0x1);
    assert!(matches!(run.on_failure(5, "no"), CreateNext::GiveUp(e) if e == "ctx=0x1: no"));
}

#[test]
fn every_way_to_hand_over_is_tried() {
    let mut run = InitRun::new();
    assert!(run.on_failure(InitFault::Wrap, "a").is_none());
    assert_eq!(run.way, InitWay::File);
    assert!(run.on_failure(InitFault::Refused, "b").is_none());
    assert!(run.on_failure(InitFault::Cast, "c").is_none());
    assert_eq!(
        run.on_failure(InitFault::Refused, "d").unwrap(),
        "预览处理器拒绝所有 Initialize 接口: [SHCreateStreamOnFileEx: a; File.Initialize: b; cast IInitializeWithItem: c; IPersistFile.Load: d]"
    );
}

#[test]
fn cloud_files_are_fetched() {
    assert!(preview_handler::path_looks_like_cloud_storage("C:\\Users\\x\\OneDrive\\a.docx"));
    assert!(!preview_handler::path_looks_like_cloud_storage("C:\\x\\a.docx"));
    assert!(preview_handler::needs_hydration("C:\\a", 0x1000));
    assert!(preview_handler::needs_hydration("C:\\a", 0x40_0000));
    assert!(!preview_handler::needs_hydration("C:\\a", 0x220));
    assert!(preview_handler::hydrate_error(Some(5)).is_ok());
    assert!(preview_handler::hydrate_error(None).is_ok());
    assert!(preview_handler::hydrate_error(Some(362)).unwrap_err().starts_with("云文件提供程序未运行（系统错误 362）。"));
    let mut h = Hydration::new(3_000_000);
    assert_eq!(h.next(), HydrateNext::Read);
    for _ in 0..3 {
        assert_eq!(h.on_read(524_288), HydrateNext::Read);
    }
    assert_eq!(h.on_read(524_288), HydrateNext::Check);
    assert_eq!(h.on_attrs(Some(0x1000)), HydrateNext::Read);
    assert_eq!(h.on_attrs(None), HydrateNext::Read);
    assert_eq!(h.on_attrs(Some(0x20)), HydrateNext::Done);
    assert_eq!(h.on_read(0), HydrateNext::Done);
    assert_eq!(Hydration::new(u64::MAX).max_read, 67_108_864);
    assert_eq!(Hydration::new(0).next(), HydrateNext::Done);
}

// ---- the pane -----------------------------------------------------------------------------

fn client(w: i32, h: i32) -> ClientRect {
    ClientRect { x: 1, y: 2, w, h }
}

fn place(w: i32) -> Place {
    Place {
        owner_top: 10,
        owner_webview: 11,
        client: client(w, 5),
        screen: win_preview::client_to_screen_rect(100, 200, client(w, 5)),
    }
}

#[test]
fn the_pane_has_a_real_size() {
    let b = win_preview::client_to_screen_rect(100, 200, client(-4, 7));
    assert_eq!(b, Bounds { left: 100, top: 200, right: 101, bottom: 207 });
    let win = |handle, class: &str| ChildWindow { handle, class: class.to_string() };
    assert_eq!(win_preview::find_webview_host(9, &vec![win(1, "x"), win(2, "Chrome_WidgetWin_1")]), 2);
    assert_eq!(win_preview::find_webview_host(9, &vec![win(1, "x")]), 9);
    assert!(win_preview::is_webview_class("Intermediate D3D Window"));
}

#[test]
fn the_same_file_only_moves() {
    let mut s: Option<PreviewState> = None;
    assert!(matches!(win_preview::show_preview(&mut s, "a", true, false, place(3)), ShowStart::Make(None)));
    win_preview::remember_preview(&mut s, 77, "a".to_string(), place(3));
    assert!(matches!(win_preview::show_preview(&mut s, "a", true, false, place(9)), ShowStart::Move(77)));
    assert_eq!(s.as_ref().unwrap().client.w, 9);
    assert!(matches!(win_preview::show_preview(&mut s, "x", false, false, place(9)), ShowStart::Refused(e) if e == "预览目标不存在"));
    assert!(matches!(win_preview::show_preview(&mut s, "x", true, true, place(9)), ShowStart::Refused(e) if e == "文件夹无可用预览"));
    assert!(s.is_some());
    assert_eq!(win_preview::hide_preview(&s), Some(77));
    assert_eq!(win_preview::set_bounds(&mut s, place(4)), Some(77));
    assert_eq!(s.as_ref().unwrap().client.w, 4);
    assert!(matches!(win_preview::show_preview(&mut s, "b", true, false, place(9)), ShowStart::Make(Some(77))));
    assert!(s.is_none());
    assert_eq!(win_preview::set_bounds(&mut s, place(4)), None);
    win_preview::remember_preview(&mut s, 78, "b".to_string(), place(3));
    assert_eq!(win_preview::unload_preview(&mut s), Some(78));
    assert!(s.is_none() && win_preview::unload_preview(&mut s).is_none());
}

fn result(error: Option<&str>, has_fallback: bool) -> StageResult {
    StageResult { error: error.map(|e| e.to_string()), first_error: "p".to_string(), has_fallback }
}

#[test]
fn a_preview_is_made_step_by_step() {
    let mut stage = ShowStage::Find;
    let mut seen = vec![stage];
    while stage != ShowStage::Shown {
        stage = win_preview::next_stage(stage, &result(None, false)).unwrap();
        seen.push(stage);
    }
    assert_eq!(
        seen,
        vec![
            ShowStage::Find,
            ShowStage::CreatePrimary,
            ShowStage::Initialize,
            ShowStage::MakeHost,
            ShowStage::SetWindow,
            ShowStage::DoPreview,
            ShowStage::Shown,
        ]
    );
    assert_eq!(
        win_preview::next_stage(ShowStage::CreatePrimary, &result(Some("e"), true)),
        Ok(ShowStage::CreateFallback)
    );
    let err = |s, e: &str| win_preview::next_stage(s, &result(Some(e), false)).unwrap_err();
    assert_eq!(err(ShowStage::Find, "x"), "该文件类型未注册系统预览处理器");
    assert_eq!(err(ShowStage::CreatePrimary, "x"), "CoCreateInstance 预览处理器失败：x");
    assert_eq!(
        err(ShowStage::CreatePrimary, "(0x80040154)"),
        "未找到可用的系统预览处理器（注册的处理器与本程序不兼容）"
    );
    assert_eq!(err(ShowStage::CreateFallback, "f"), "未找到可用的系统预览处理器：primary(p); fallback(f)");
    assert_eq!(err(ShowStage::Initialize, "x"), "x");
    assert_eq!(err(ShowStage::MakeHost, "x"), "创建预览容器窗口失败: x");
    assert_eq!(err(ShowStage::SetWindow, "x"), "IPreviewHandler::SetWindow 失败: x");
    assert_eq!(err(ShowStage::DoPreview, "x"), "IPreviewHandler::DoPreview 失败: x");
}
