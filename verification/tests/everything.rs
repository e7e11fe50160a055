use findx2::everything_ipc::{
    self, CopyDataAction, HitBytes, IpcHit, ParsedQuery, QueryRequest, ServiceFacts, SortField,
};

fn u32_at(b: &[u8], i: usize) -> u32 {
    u32::from_le_bytes([b[i], b[i + 1], b[i + 2], b[i + 3]])
}

fn wide_at(b: &[u8], i: usize) -> String {
    let mut units: Vec<u16> = Vec::new();
    let mut k = i;
    while b[k] != 0 || b[k + 1] != 0 {
        units.push(u16::from_le_bytes([b[k], b[k + 1]]));
        k += 2;
    }
    String::from_utf16(&units).unwrap()
}

fn narrow_at(b: &[u8], i: usize) -> Vec<u8> {
    let end = (i..b.len()).find(|k| b[*k] == 0).unwrap();
    b[i..end].to_vec()
}

/// The bytes of the code page for simplified Chinese, as far as the tests need it.
fn local(s: &str) -> Vec<u8> {
    let mut out = Vec::new();
    for c in s.chars() {
        if c == '中' {
            out.extend_from_slice(&[0xD6, 0xD0]);
        } else {
            out.push(c as u8);
        }
    }
    out
}

fn local_texts(v: &Vec<IpcHit>, req: &QueryRequest) -> Vec<HitBytes> {
    everything_ipc::narrow_texts(v, req)
        .iter()
        .map(|t| HitBytes {
            name: local(&t.name),
            parent: local(&t.parent),
            full_path: local(&t.full_path),
            extension: local(&t.extension),
        })
        .collect()
}

fn hit(path: &str, name: &str, is_dir: bool) -> IpcHit {
    everything_ipc::ipc_hit_from_search(path.to_string(), name.to_string(), is_dir, 5, 6, 7, 0x120)
}

fn three_hits() -> Vec<IpcHit> {
    vec![
        hit("C:\\a\\x.txt", "x.txt", false),
        hit("C:\\b", "b", true),
        hit("C:\\c\\中.md", "中.md", false),
    ]
}

#[test]
fn questions_are_answered() {
    let f = ServiceFacts { target_machine: 2, loaded: true, busy: false };
    assert_eq!(everything_ipc::handle_wm_user(0, f), 1);
    assert_eq!(everything_ipc::handle_wm_user(1, f), 4);
    assert_eq!(everything_ipc::handle_wm_user(3, f), 1026);
    assert_eq!(everything_ipc::handle_wm_user(5, f), 2);
    assert_eq!(everything_ipc::handle_wm_user(401, f), 1);
    assert_eq!(everything_ipc::handle_wm_user(402, f), 0);
    assert_eq!(everything_ipc::handle_wm_user(7777, f), 0);
    assert_eq!(everything_ipc::target_machine_value("x86"), 1);
    assert_eq!(everything_ipc::target_machine_value("x86_64"), 2);
    assert_eq!(everything_ipc::target_machine_value("aarch64"), 3);
    assert!(everything_ipc::db_busy_now(Some(false), Some(false)));
    assert!(everything_ipc::db_busy_now(Some(true), None));
    assert!(!everything_ipc::db_busy_now(None, None));
    assert!(everything_ipc::db_is_loaded(Some(1)));
    assert!(!everything_ipc::db_is_loaded(Some(0)));
}

#[test]
fn sort_numbers_are_mapped() {
    assert_eq!(everything_ipc::map_sort_type(1), (SortField::Name, false));
    assert_eq!(everything_ipc::map_sort_type(2), (SortField::Name, true));
    assert_eq!(everything_ipc::map_sort_type(4), (SortField::Path, true));
    assert_eq!(everything_ipc::map_sort_type(5), (SortField::Size, false));
    assert_eq!(everything_ipc::map_sort_type(12), (SortField::Created, true));
    assert_eq!(everything_ipc::map_sort_type(13), (SortField::Modified, false));
    assert_eq!(everything_ipc::map_sort_type(99), (SortField::Name, false));
}

fn old_query(text: &str, wide: bool) -> Vec<u8> {
    let mut b: Vec<u8> = Vec::new();
    for n in [0u32, 3, 77, 2, 0] {
        b.extend_from_slice(&n.to_le_bytes());
    }
    if wide {
        for u in text.encode_utf16() {
            b.extend_from_slice(&u.to_le_bytes());
        }
        b.extend_from_slice(&[0, 0]);
    } else {
        b.extend_from_slice(text.as_bytes());
        b.push(0);
    }
    b
}

fn asked(a: CopyDataAction) -> QueryRequest {
    match a {
        CopyDataAction::Query(q) => q,
        CopyDataAction::Answer(n) => panic!("{n}"),
    }
}

#[test]
fn older_queries_are_read() {
    let q = asked(everything_ipc::handle_copydata(2, &old_query("中 a", true)));
    assert_eq!((q.columns, q.wide, q.reply_msg, q.search_flags, q.offset, q.max), (false, true, 77, 2, 3, 100));
    assert_eq!(q.text, "中 a");
    let q = asked(everything_ipc::handle_copydata(1, &old_query("ab", false)));
    assert_eq!((q.wide, q.text.as_str()), (false, "ab"));
    let mut silent = old_query("x", true);
    silent[8..12].copy_from_slice(&[0; 4]);
    assert!(matches!(everything_ipc::handle_query(&silent, true), CopyDataAction::Answer(0)));
    assert!(matches!(everything_ipc::handle_copydata(1, &[0; 5]), CopyDataAction::Answer(0)));
    assert!(matches!(everything_ipc::handle_copydata(0, &[]), CopyDataAction::Answer(1)));
    assert!(matches!(everything_ipc::handle_copydata(5, &[]), CopyDataAction::Answer(0)));
}

#[test]
fn newer_queries_are_read() {
    let mut b: Vec<u8> = Vec::new();
    for n in [0u32, 88, 1, 4, 9, 0x17, 6] {
        b.extend_from_slice(&n.to_le_bytes());
    }
    b.extend_from_slice(b"q\0");
    let q = asked(everything_ipc::handle_copydata(17, &b));
    assert_eq!((q.columns, q.reply_msg, q.offset, q.max, q.request_flags), (true, 88, 4, 9, 0x17));
    assert_eq!((q.sort_by, q.sort_desc), (SortField::Size, true));
    assert_eq!(everything_ipc::query_text(&q).unwrap(), "q");
    assert!(matches!(everything_ipc::handle_query2(&b[..20], false), CopyDataAction::Answer(0)));
}

#[test]
fn narrow_text_that_is_no_utf8_is_replaced() {
    assert_eq!(everything_ipc::extract_astring(b"ab\xFFc\0zz"), "ab\u{FFFD}c");
    assert_eq!(everything_ipc::extract_wstring(&[0x61, 0, 0, 0, 0x62, 0]), "a");
}

fn parsed() -> ParsedQuery {
    ParsedQuery {
        case_sensitive: false,
        whole_word: false,
        nowfn: true,
        regex_pattern: None,
        name_terms: vec!["a".to_string(), "b".to_string()],
        substring: Some("s".to_string()),
        limit: 0,
        sort_by: SortField::Name,
        sort_desc: false,
    }
}

#[test]
fn flags_change_a_search_once() {
    let mut q = parsed();
    everything_ipc::apply_ipc_search_flags(&mut q, 0);
    assert_eq!(q.name_terms.len(), 2);
    everything_ipc::apply_ipc_search_flags(&mut q, 0xF);
    assert!(q.case_sensitive && q.whole_word && !q.nowfn);
    assert_eq!(q.regex_pattern.as_deref(), Some("a b"));
    assert!(q.name_terms.is_empty() && q.substring.is_none());
    everything_ipc::apply_ipc_search_flags(&mut q, 0xF);
    assert_eq!(q.regex_pattern.as_deref(), Some("a b"));
    let mut q = parsed();
    q.name_terms.clear();
    everything_ipc::apply_ipc_search_flags(&mut q, 1);
    assert_eq!(q.regex_pattern.as_deref(), Some("s"));
}

#[test]
fn searches_ask_for_the_whole_page() {
    let mut q = parsed();
    let req = asked(everything_ipc::handle_copydata(2, &old_query("x", true)));
    everything_ipc::prepare_search(&mut q, &req);
    assert_eq!(q.limit, 103);
    assert!(q.case_sensitive);
    let mut far = asked(everything_ipc::handle_copydata(2, &old_query("x", true)));
    far.offset = u32::MAX;
    everything_ipc::prepare_search(&mut q, &far);
    assert_eq!(q.limit, 8192);
}

#[test]
fn hits_know_their_folder() {
    let h = hit("C:\\a\\x.txt", "x.txt", false);
    assert_eq!((h.parent.as_str(), h.attrs), ("C:\\a", 0x20));
    assert_eq!(hit("name", "name", false).parent, "");
}

#[test]
fn older_replies_point_at_their_strings() {
    let v = three_hits();
    let b = everything_ipc::build_list_w(&v, 1, 1, 2);
    let head: Vec<u32> = (0..7).map(|i| u32_at(&b, 4 * i)).collect();
    assert_eq!(head, vec![1, 2, 3, 1, 1, 2, 1]);
    assert_eq!(u32_at(&b, 28), 1);
    assert_eq!(wide_at(&b, u32_at(&b, 32) as usize), "b");
    assert_eq!(wide_at(&b, u32_at(&b, 36) as usize), "C:");
    assert_eq!(u32_at(&b, 40), 0);
    assert_eq!(wide_at(&b, u32_at(&b, 44) as usize), "中.md");
    assert_eq!(wide_at(&b, u32_at(&b, 48) as usize), "C:\\c");
}

#[test]
fn narrow_replies_hold_the_bytes_of_the_machine() {
    let v = three_hits();
    let mut req = asked(everything_ipc::handle_copydata(1, &old_query("x", false)));
    req.offset = 1;
    req.max = 5;
    let texts = local_texts(&v, &req);
    assert_eq!(texts.len(), 2);
    assert_eq!(texts[1].extension, b"md".to_vec());
    let b = everything_ipc::build_reply(&v, &texts, &req);
    assert_eq!(b, everything_ipc::build_list_a(&v, &texts, 1, 1, 2));
    assert_eq!(narrow_at(&b, u32_at(&b, 32) as usize), b"b".to_vec());
    assert_eq!(narrow_at(&b, u32_at(&b, 36) as usize), b"C:".to_vec());
    assert_eq!(narrow_at(&b, u32_at(&b, 44) as usize), vec![0xD6, 0xD0, b'.', b'm', b'd']);
    assert_eq!(narrow_at(&b, u32_at(&b, 48) as usize), b"C:\\c".to_vec());
    assert_eq!(b.len(), 28 + 24 + 2 + 3 + 6 + 5);
    req.columns = true;
    req.request_flags = 1;
    let b = everything_ipc::build_reply(&v, &texts, &req);
    let at = u32_at(&b, 32) as usize;
    assert_eq!(b[at..].to_vec(), vec![5, 0, 0, 0, 0xD6, 0xD0, b'.', b'm', b'd', 0]);
    req.wide = true;
    assert!(everything_ipc::narrow_texts(&v, &req).is_empty());
}

#[test]
fn queries_without_a_search_get_no_reply() {
    let req = asked(everything_ipc::handle_copydata(2, &old_query("x", true)));
    assert_eq!(everything_ipc::answer_query(&None, &vec![], &req), (0, None));
    let (n, reply) = everything_ipc::answer_query(&Some(vec![]), &vec![], &req);
    assert_eq!((n, u32_at(&reply.unwrap(), 8)), (1, 0));
}

#[test]
fn newer_replies_hold_the_asked_columns() {
    let v = three_hits();
    let b = everything_ipc::build_list2(&v, &vec![], 0, 0, 3, 0x19, true);
    let head: Vec<u32> = (0..5).map(|i| u32_at(&b, 4 * i)).collect();
    assert_eq!(head, vec![3, 3, 0, 0x19, 1]);
    let at = u32_at(&b, 24) as usize;
    assert_eq!(u32_at(&b, at), 5);
    assert_eq!(wide_at(&b, at + 4), "x.txt");
    let ext = at + 4 + 12;
    assert_eq!(u32_at(&b, ext), 3);
    assert_eq!(wide_at(&b, ext + 4), "txt");
    assert_eq!(u32_at(&b, ext + 4 + 8), 5);
    assert_eq!(u32_at(&b, 28), 1);
    let mut s: Vec<u8> = Vec::new();
    everything_ipc::write_ipc_string(&mut s, &b"ab".to_vec(), false);
    assert_eq!(s, vec![2, 0, 0, 0, b'a', b'b', 0]);
    let mut s: Vec<u8> = Vec::new();
    everything_ipc::write_ipc_string(&mut s, &vec![b'a', 0, b'b', 0], true);
    assert_eq!(s, vec![2, 0, 0, 0, b'a', 0, b'b', 0, 0, 0]);
    let mut p: Vec<u8> = Vec::new();
    let none = HitBytes { name: vec![], parent: vec![], full_path: vec![], extension: vec![] };
    everything_ipc::write_item2_payload(&mut p, &v[0], &none, 0x100, true);
    assert_eq!(p, vec![0x20, 0, 0, 0]);
}

#[test]
fn replies_take_the_page_of_the_request() {
    let v = three_hits();
    let mut req = asked(everything_ipc::handle_copydata(2, &old_query("x", true)));
    req.offset = 2;
    req.max = 5;
    assert_eq!(everything_ipc::build_reply(&v, &vec![], &req), everything_ipc::build_list_w(&v, 2, 2, 1));
    req.offset = 9;
    assert_eq!(u32_at(&everything_ipc::build_reply(&v, &vec![], &req), 20), 0);
    req.columns = true;
    req.offset = 0;
    req.max = 1;
    req.request_flags = 1;
    assert_eq!(everything_ipc::build_reply(&v, &vec![], &req), everything_ipc::build_list2(&v, &vec![], 0, 0, 1, 1, true));
}
