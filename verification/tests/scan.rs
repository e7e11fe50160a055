use std::collections::{HashMap, HashSet};

use findx2::bytes;
use findx2::metadata_fill;
use findx2::mft::{self, SubtreeItem};
use findx2::mft_read;
use findx2::model::{ChangeEvent, Error, RawEntry};
use findx2::nt_dir_query;
use findx2::open_by_id;
use findx2::sort;
use findx2::usn::{self, ParsedWatchRec, UsnResume, UsnState, UsnWatchMsg};
use findx2::utf16;
use findx2::volume_scan::{self, EnumAnswer, ScanNext};
use findx2::volumes;

// ---- bytes, text units and order ----------------------------------------------------------

#[test]
fn numbers_are_little_endian_and_read_back() {
    let mut v: Vec<u8> = Vec::new();
    bytes::push_u16(&mut v, 0x1234);
    bytes::push_u32(&mut v, 0x89AB_CDEF);
    bytes::push_u64(&mut v, 0x0102_0304_0506_0708);
    bytes::push_bytes(&mut v, &[9, 10]);
    assert_eq!(&v[..2], &[0x34, 0x12]);
    assert_eq!(&v[2..6], &[0xEF, 0xCD, 0xAB, 0x89]);
    assert_eq!(v.len(), 16);
    assert_eq!(bytes::read_u16(&v, 0), 0x1234);
    assert_eq!(bytes::read_u32(&v, 2), 0x89AB_CDEF);
    assert_eq!(bytes::read_u64(&v, 6), 0x0102_0304_0506_0708);
    assert_eq!(&v[14..], &[9, 10]);
    assert_eq!(bytes::read_i64(&[0xFE, 0xFF, 0xFF, 0xFF, 0xFF, 0xFF, 0xFF, 0xFF], 0), -2);
}

#[test]
fn wide_text_round_trip_with_pairs() {
    let s = "a中😀";
    let w = utf16::to_wide(s);
    assert_eq!(w, s.encode_utf16().collect::<Vec<u16>>());
    assert_eq!(utf16::from_wide(&w), s);
    let mut z: Vec<u16> = s.encode_utf16().collect();
    z.push(0);
    assert_eq!(utf16::to_wide_null(s), z);
}

#[test]
fn unpaired_surrogates_read_as_replacement() {
    let u = [0xD800u16, 0x41, 0xDC00, 0xD83D];
    assert_eq!(utf16::from_wide(&u), String::from_utf16_lossy(&u));
    assert_eq!(utf16::from_wide(&u), "\u{FFFD}A\u{FFFD}\u{FFFD}");
}

#[test]
fn wide_bytes_stop_at_zero_and_drop_an_odd_byte() {
    let b = [0x61, 0, 0x62, 0, 0, 0, 0x63, 0, 7];
    assert_eq!(utf16::units_of_bytes(&b), vec![0x61, 0x62, 0, 0x63]);
    assert_eq!(utf16::from_wide_bytes(&b), "ab");
    assert_eq!(utf16::text_of_bytes(&b[..4]), "ab");
}

#[test]
fn sorting_keeps_every_number() {
    assert_eq!(sort::sorted_numbers(&vec![5, 1, 4, 1, 3]), vec![1, 1, 3, 4, 5]);
    assert_eq!(sort::sort_keyed(vec![(3, 0), (1, 1), (3, 2), (0, 3)]), vec![(0, 3), (1, 1), (3, 0), (3, 2)]);
    assert!(sort::sorted_numbers(&Vec::new()).is_empty());
}

// ---- journal records ----------------------------------------------------------------------

fn rec(fr: u64, reason: u32, name: &str) -> ParsedWatchRec {
    ParsedWatchRec {
        file_ref: fr,
        parent_ref: 100,
        reason,
        attrs: 0x20,
        name: name.to_string(),
        is_dir: false,
        file_id_128: None,
    }
}

#[test]
fn coalesce_merges_same_frn_storm() {
    let v = vec![
        rec(1, usn::REASON_FILE_CREATE, "a.txt"),
        rec(1, usn::REASON_DATA_EXTEND, "a.txt"),
        rec(1, usn::REASON_DATA_TRUNCATION, "a.txt"),
        rec(1, usn::REASON_BASIC_INFO_CHANGE, "a.txt"),
        rec(2, usn::REASON_FILE_CREATE, "b.txt"),
    ];
    let out = usn::coalesce_watch_batch(v);
    assert_eq!(out.len(), 2);
    assert_eq!(out[0].file_ref, 1);
    assert_eq!(
        out[0].reason,
        usn::REASON_FILE_CREATE
            | usn::REASON_DATA_EXTEND
            | usn::REASON_DATA_TRUNCATION
            | usn::REASON_BASIC_INFO_CHANGE
    );
    assert_eq!(out[1].file_ref, 2);
}

#[test]
fn coalesce_keeps_latest_name_and_order() {
    let v = vec![
        rec(1, usn::REASON_RENAME_OLD_NAME, "old.txt"),
        rec(2, usn::REASON_FILE_CREATE, "x.txt"),
        rec(1, usn::REASON_RENAME_NEW_NAME, "new.txt"),
    ];
    let out = usn::coalesce_watch_batch(v);
    assert_eq!(out.len(), 2);
    assert_eq!(out[0].file_ref, 1);
    assert_eq!(out[0].name, "new.txt");
    assert!(out[0].reason & usn::REASON_RENAME_NEW_NAME != 0);
    assert!(out[0].reason & usn::REASON_RENAME_OLD_NAME != 0);
    assert_eq!(out[1].file_ref, 2);
}

#[test]
fn coalesce_empty_batch() {
    let out = usn::coalesce_watch_batch(vec![]);
    assert!(out.is_empty());
}

#[test]
fn coalescing_twice_changes_nothing() {
    let once = usn::coalesce_watch_batch(vec![rec(7, 2, "p"), rec(8, 4, "q"), rec(7, 0x100, "r")]);
    let names: Vec<(u64, u32, String)> =
        once.iter().map(|r| (r.file_ref, r.reason, r.name.clone())).collect();
    let twice = usn::coalesce_watch_batch(once);
    let again: Vec<(u64, u32, String)> =
        twice.iter().map(|r| (r.file_ref, r.reason, r.name.clone())).collect();
    assert_eq!(names, again);
    assert_eq!(names, vec![(7, 0x102, "r".to_string()), (8, 4, "q".to_string())]);
}

fn record_v2(file: u64, parent: u64, reason: u32, attrs: u32, name: &str) -> Vec<u8> {
    let units: Vec<u16> = name.encode_utf16().collect();
    let mut v = vec![0u8; 60];
    v[4] = 2;
    v[8..16].copy_from_slice(&file.to_le_bytes());
    v[16..24].copy_from_slice(&parent.to_le_bytes());
    v[32..40].copy_from_slice(&777u64.to_le_bytes());
    v[40..44].copy_from_slice(&reason.to_le_bytes());
    v[52..56].copy_from_slice(&attrs.to_le_bytes());
    v[56..58].copy_from_slice(&((units.len() * 2) as u16).to_le_bytes());
    v[58..60].copy_from_slice(&60u16.to_le_bytes());
    for u in &units {
        v.extend_from_slice(&u.to_le_bytes());
    }
    while v.len() % 8 != 0 {
        v.push(0);
    }
    let n = v.len() as u32;
    v[0..4].copy_from_slice(&n.to_le_bytes());
    v
}

fn record_v3(id: [u8; 16], parent: u64, reason: u32, name: &str) -> Vec<u8> {
    let units: Vec<u16> = name.encode_utf16().collect();
    let mut v = vec![0u8; 76];
    v[4] = 3;
    v[8..24].copy_from_slice(&id);
    v[24..32].copy_from_slice(&parent.to_le_bytes());
    v[48..56].copy_from_slice(&888u64.to_le_bytes());
    v[56..60].copy_from_slice(&reason.to_le_bytes());
    v[72..74].copy_from_slice(&((units.len() * 2) as u16).to_le_bytes());
    v[74..76].copy_from_slice(&76u16.to_le_bytes());
    for u in &units {
        v.extend_from_slice(&u.to_le_bytes());
    }
    while v.len() % 8 != 0 {
        v.push(0);
    }
    let n = v.len() as u32;
    v[0..4].copy_from_slice(&n.to_le_bytes());
    v
}

#[test]
fn both_record_versions_are_read() {
    let r = record_v2(5, 6, 0x100, 0x20, "x.txt");
    let p = usn::parse_read_usn_record(&r).unwrap();
    assert_eq!((p.file_ref, p.parent_ref, p.timestamp, p.reason, p.attrs), (5, 6, 777, 0x100, 0x20));
    assert_eq!((p.name_len, p.name_off), (10, 60));
    assert!(p.file_id_128.is_none());
    let mut id = [0u8; 16];
    id[0] = 9;
    id[15] = 4;
    let r = record_v3(id, 6, 0x200, "y");
    let p = usn::parse_read_usn_record(&r).unwrap();
    assert_eq!((p.file_ref, p.parent_ref, p.timestamp, p.reason), (9, 6, 888, 0x200));
    assert_eq!(p.file_id_128, Some(id));
    let mut bad = record_v2(5, 6, 1, 0, "x");
    bad[4] = 4;
    assert!(usn::parse_read_usn_record(&bad).is_none());
    assert!(usn::parse_read_usn_record(&bad[..40]).is_none());
    assert!(usn::parse_read_usn_record(&[]).is_none());
}

#[test]
fn enumerated_records_must_state_their_length() {
    let r = record_v2(5, 6, 0x100, 0x20, "x.txt");
    assert!(usn::parse_enum_usn_record(&r).is_some());
    let mut longer = r.clone();
    longer.push(0);
    assert!(usn::parse_enum_usn_record(&longer).is_none());
    assert!(usn::parse_read_usn_record(&longer).is_some());
}

fn batch(next: i64, recs: &[Vec<u8>]) -> Vec<u8> {
    let mut b = next.to_le_bytes().to_vec();
    for r in recs {
        b.extend_from_slice(r);
    }
    b
}

#[test]
fn a_read_reports_its_position_after_the_changes() {
    let b = batch(
        42,
        &[
            record_v2(1, 9, usn::REASON_FILE_CREATE, 0x20, "a.txt"),
            record_v2(2, 9, usn::REASON_FILE_DELETE, 0x20, "b.txt"),
            record_v2(3, 9, usn::REASON_DATA_EXTEND, 0x10, "dir"),
        ],
    );
    let (next, msgs) = usn::watch_step(11, 7, &b);
    assert_eq!(next, 42);
    assert_eq!(msgs.len(), 4);
    assert!(matches!(msgs[3], UsnWatchMsg::Checkpoint { journal_id: 11, next_usn: 42 }));
    match &msgs[0] {
        UsnWatchMsg::Event(ChangeEvent::CreatePending { file_id, parent_id, name, attrs, is_dir, .. }) => {
            assert_eq!((*file_id, *parent_id, name.as_str(), *attrs, *is_dir), (1, 9, "a.txt", 0x20, false));
        },
        other => panic!("{other:?}"),
    }
    assert!(matches!(msgs[1], UsnWatchMsg::StatRefresh { file_id: 1, .. }));
    assert!(matches!(msgs[2], UsnWatchMsg::Event(ChangeEvent::Delete { file_id: 2 })));
}

#[test]
fn batches_of_changes_are_read() {
    let recs = usn::parse_watch_batch(&batch(
        7,
        &[record_v2(1, 9, usn::REASON_FILE_CREATE, 0x10, "d"), record_v3([3; 16], 8, usn::REASON_FILE_DELETE, "é")],
    ));
    assert_eq!(recs.len(), 2);
    assert_eq!((recs[0].file_ref, recs[0].parent_ref, recs[0].name.as_str(), recs[0].is_dir), (1, 9, "d", true));
    assert_eq!((recs[1].name.as_str(), recs[1].file_id_128), ("é", Some([3; 16])));
    assert!(usn::parse_watch_batch(&[0; 7]).is_empty());
}

#[test]
fn merging_in_halves_is_merging_at_once() {
    let a = || vec![rec(4, 1, "a"), rec(5, 2, "b"), rec(4, 4, "c")];
    let b = || vec![rec(6, 8, "d"), rec(4, 16, "e"), rec(5, 32, "f")];
    let whole = usn::coalesce_watch_batch(a().into_iter().chain(b()).collect());
    let halves = usn::coalesce_watch_batch(
        usn::coalesce_watch_batch(a()).into_iter().chain(usn::coalesce_watch_batch(b())).collect(),
    );
    let facts = |v: &Vec<ParsedWatchRec>| v.iter().map(|r| (r.file_ref, r.reason, r.name.clone())).collect::<Vec<_>>();
    assert_eq!(facts(&whole), facts(&halves));
    assert_eq!(
        facts(&whole),
        vec![(4, 21, "e".to_string()), (5, 34, "f".to_string()), (6, 8, "d".to_string())]
    );
}

#[test]
fn a_watcher_goes_on_where_it_was() {
    let j = UsnState { journal_id: 3, next_usn: 900, first_usn: 100 };
    let mut w = usn::usn_watch_forever(None, j).unwrap();
    assert_eq!((w.request().start_usn, w.request().journal_id, w.request().timeout), (900, 3, 2));
    let msgs = w.on_read(&batch(950, &[record_v2(1, 9, usn::REASON_FILE_DELETE, 0x20, "a")]));
    assert_eq!((w.cursor, msgs.len()), (950, 2));
    match msgs[1] {
        UsnWatchMsg::Checkpoint { journal_id, next_usn } => {
            let again = usn::usn_watch_forever(Some(UsnResume { journal_id, start_usn: next_usn }), j).unwrap();
            assert_eq!(again, w);
        },
        _ => panic!("the position comes last"),
    }
    assert!(usn::usn_watch_forever(Some(UsnResume { journal_id: 4, start_usn: 1 }), j).is_err());
}

#[test]
fn a_short_read_changes_nothing() {
    let (next, msgs) = usn::watch_step(11, 7, &[1, 2, 3]);
    assert_eq!(next, 7);
    assert!(msgs.is_empty());
}

fn kinds(reason: u32, is_dir: bool) -> Vec<&'static str> {
    let mut r = rec(4, reason, "n");
    r.is_dir = is_dir;
    let mut out: Vec<UsnWatchMsg> = Vec::new();
    usn::emit_coalesced_watch_rec(&r, &mut out);
    out.iter()
        .map(|m| match m {
            UsnWatchMsg::Event(ChangeEvent::Delete { .. }) => "delete",
            UsnWatchMsg::Event(ChangeEvent::Rename { .. }) => "rename",
            UsnWatchMsg::Event(ChangeEvent::CreatePending { .. }) => "create",
            UsnWatchMsg::StatRefresh { .. } => "stat",
            UsnWatchMsg::Checkpoint { .. } => "checkpoint",
        })
        .collect()
}

#[test]
fn reasons_become_messages() {
    assert_eq!(kinds(usn::REASON_FILE_CREATE, false), vec!["create", "stat"]);
    assert_eq!(kinds(usn::REASON_FILE_CREATE, true), vec!["create"]);
    assert_eq!(kinds(usn::REASON_RENAME_OLD_NAME, false), vec!["rename"]);
    assert_eq!(
        kinds(usn::REASON_RENAME_OLD_NAME | usn::REASON_RENAME_NEW_NAME, false),
        vec!["rename", "stat"]
    );
    assert_eq!(kinds(usn::REASON_RENAME_NEW_NAME, false), vec!["create", "stat"]);
    assert_eq!(kinds(usn::REASON_DATA_TRUNCATION, false), vec!["stat"]);
    assert_eq!(kinds(usn::REASON_BASIC_INFO_CHANGE, true), Vec::<&str>::new());
    assert_eq!(
        kinds(usn::REASON_FILE_DELETE | usn::REASON_FILE_CREATE, false),
        vec!["delete", "create", "stat"]
    );
    assert_eq!(kinds(0, false), Vec::<&str>::new());
}

#[test]
fn reading_starts_at_the_saved_position() {
    let j = UsnState { journal_id: 3, next_usn: 900, first_usn: 100 };
    assert!(matches!(usn::start_cursor(None, j), Ok(900)));
    assert!(matches!(usn::start_cursor(Some(UsnResume { journal_id: 3, start_usn: 500 }), j), Ok(500)));
    match usn::start_cursor(Some(UsnResume { journal_id: 4, start_usn: 500 }), j) {
        Err(Error::JournalGap(t)) => {
            assert_eq!(t, "USN Journal ID 已变化（4 -> 3），请执行全量 index 重建")
        },
        other => panic!("{other:?}"),
    }
    match usn::start_cursor(Some(UsnResume { journal_id: 3, start_usn: 50 }), j) {
        Err(Error::JournalGap(t)) => assert_eq!(
            t,
            "USN Journal 已覆写过游标（start_usn=50 < FirstUsn=100），中间变更已丢失，请执行全量 index 重建"
        ),
        other => panic!("{other:?}"),
    }
}

#[test]
fn read_failures_tell_gaps_apart() {
    assert!(usn::is_journal_entry_deleted(0x8007_049A));
    assert!(matches!(usn::read_failure(0x8007_049A, "x"), Error::JournalGap(_)));
    match usn::read_failure(5, "denied") {
        Error::Platform(t) => assert_eq!(t, "FSCTL_READ_USN_JOURNAL 失败: denied"),
        other => panic!("{other:?}"),
    }
}

#[test]
fn journal_requests_and_sizes() {
    let r = usn::read_request(8, 15);
    assert_eq!((r.start_usn, r.timeout, r.bytes_to_wait_for, r.journal_id), (15, 2, 65536, 8));
    assert_eq!(r.reason_mask, 0xB306);
    assert_eq!(usn::ensure_usn_journal(None), usn::JournalAction::Create);
    assert_eq!(usn::ensure_usn_journal(Some(1 << 20)), usn::JournalAction::Grow);
    assert_eq!(usn::ensure_usn_journal(Some(512 << 20)), usn::JournalAction::Keep);
    assert!(usn::journal_changed(true, usn::JournalAction::Grow, true));
    assert!(!usn::journal_changed(true, usn::JournalAction::Keep, true));
    assert!(!usn::journal_changed(false, usn::JournalAction::Create, true));
}

fn extents(list: &[i64]) -> Vec<u8> {
    let mut b = vec![0u8; 16];
    b[0..4].copy_from_slice(&(list.len() as u32).to_le_bytes());
    for n in list {
        b.extend_from_slice(&n.to_le_bytes());
        b.extend_from_slice(&[0u8; 8]);
    }
    b
}

#[test]
fn extents_are_counted_over_several_answers() {
    let w = usn::ExtentWalk { total: 0, start_vcn: 0, done: false };
    let w = usn::mft_extent_count(w, Some(&extents(&[10, 20])));
    assert_eq!(w, usn::ExtentWalk { total: 2, start_vcn: 20, done: false });
    let w = usn::mft_extent_count(w, Some(&extents(&[35])));
    assert_eq!(w, usn::ExtentWalk { total: 3, start_vcn: 35, done: false });
    let again = usn::mft_extent_count(w, Some(&extents(&[35])));
    assert_eq!(again, usn::ExtentWalk { total: 4, start_vcn: 35, done: true });
    assert_eq!(usn::mft_extent_count(w, None), usn::ExtentWalk { total: 3, start_vcn: 35, done: true });
    assert!(usn::table_is_fragmented(65));
    assert!(!usn::table_is_fragmented(64));
}

// ---- the file table -----------------------------------------------------------------------

fn table_record(size: u32, mtime: u64, ctime: u64) -> Vec<u8> {
    let mut v = vec![0u8; 1024];
    v[0..4].copy_from_slice(b"FILE");
    v[0x14..0x16].copy_from_slice(&56u16.to_le_bytes());
    v[0x16] = 1;
    // standard information, resident, 48 bytes of contents at offset 24
    v[56..60].copy_from_slice(&0x10u32.to_le_bytes());
    v[60..64].copy_from_slice(&72u32.to_le_bytes());
    v[72..76].copy_from_slice(&48u32.to_le_bytes());
    v[76..78].copy_from_slice(&24u16.to_le_bytes());
    v[80..88].copy_from_slice(&ctime.to_le_bytes());
    v[88..96].copy_from_slice(&mtime.to_le_bytes());
    // data, resident
    v[128..132].copy_from_slice(&0x80u32.to_le_bytes());
    v[132..136].copy_from_slice(&24u32.to_le_bytes());
    v[144..148].copy_from_slice(&size.to_le_bytes());
    v[152..156].copy_from_slice(&0xFFFF_FFFFu32.to_le_bytes());
    v
}

#[test]
fn a_table_record_states_size_and_times() {
    let m = mft_read::parse_mft_record_for_meta(&table_record(77, 5, 6)).unwrap();
    assert_eq!((m.size, m.mtime, m.ctime), (77, 5, 6));
    let mut unused = table_record(77, 5, 6);
    unused[0x16] = 0;
    assert!(mft_read::parse_mft_record_for_meta(&unused).is_none());
    let mut other = table_record(77, 5, 6);
    other[0] = b'B';
    assert!(mft_read::parse_mft_record_for_meta(&other).is_none());
    assert!(mft_read::parse_mft_record_for_meta(&[0; 10]).is_none());
}

#[test]
fn table_chunks_and_lookups() {
    let mut data = table_record(1, 2, 3);
    data.extend_from_slice(&table_record(4, 5, 6));
    data.extend_from_slice(&[0u8; 100]);
    let mut table: HashMap<u64, (u64, u64, u64)> = HashMap::new();
    assert_eq!(mft_read::read_chunk(&mut table, &data, 2048, 1024), 2048);
    assert_eq!(table.len(), 2);
    assert_eq!(mft_read::lookup_meta(&table, 2), Some((1, 2, 3)));
    assert_eq!(mft_read::lookup_meta(&table, 0x0005_0000_0000_0003), Some((4, 5, 6)));
    assert_eq!(mft_read::lookup_meta(&table, 9), None);
}

#[test]
fn pieces_of_the_table_do_not_matter() {
    let mut t = Vec::new();
    for i in 0..5u32 {
        t.extend_from_slice(&table_record(i + 1, 2, 3));
    }
    let read_in = |cuts: &[usize]| {
        let mut m = mft_read::read_mft_metadata(&t[..4096], t.len() as u64).unwrap();
        assert_eq!(m.record_size, 1024);
        for c in cuts {
            let from = m.total_read as usize;
            let to = (from + c).min(t.len());
            assert!((to - from) as u64 <= m.next_len());
            let back = m.on_chunk(&t[from..to]);
            assert_eq!(m.total_read + back, to as u64);
        }
        assert_eq!(m.next_len(), 0);
        m.table
    };
    let whole = read_in(&[5120]);
    assert_eq!(whole.len(), 5);
    assert_eq!(whole[&4], (5, 2, 3));
    assert_eq!(read_in(&[1500, 2100, 1024, 1024]), whole);
    assert!(mft_read::read_mft_metadata(&t[..41], 9).is_none());
}

#[test]
fn table_reads_are_bounded() {
    let mut probe = vec![0u8; 48];
    probe[0x1C..0x20].copy_from_slice(&4096u32.to_le_bytes());
    assert_eq!(mft_read::record_size_of(&probe), Some(4096));
    probe[0x1C..0x20].copy_from_slice(&7u32.to_le_bytes());
    assert_eq!(mft_read::record_size_of(&probe), Some(1024));
    assert_eq!(mft_read::record_size_of(&probe[..41]), None);
    assert_eq!(mft_read::next_read_len(100, 100), 0);
    assert_eq!(mft_read::next_read_len(100, 40), 60);
    assert_eq!(mft_read::next_read_len(1 << 40, 0), 67_108_864);
}

// ---- directory listings -------------------------------------------------------------------

fn listing_entry(next: u32, id: u64, size: u64, mtime: u64, ctime: u64, attrs: u32, name: &str) -> Vec<u8> {
    let units: Vec<u16> = name.encode_utf16().collect();
    let mut v = vec![0u8; 104];
    v[0..4].copy_from_slice(&next.to_le_bytes());
    v[8..16].copy_from_slice(&ctime.to_le_bytes());
    v[24..32].copy_from_slice(&mtime.to_le_bytes());
    v[40..48].copy_from_slice(&size.to_le_bytes());
    v[56..60].copy_from_slice(&attrs.to_le_bytes());
    v[60..64].copy_from_slice(&((units.len() * 2) as u32).to_le_bytes());
    v[96..104].copy_from_slice(&id.to_le_bytes());
    for u in &units {
        v.extend_from_slice(&u.to_le_bytes());
    }
    while v.len() % 8 != 0 {
        v.push(0);
    }
    v
}

#[test]
fn listings_skip_directories_and_dots() {
    let mut b = listing_entry(112, 1, 0, 0, 0, 0x20, ".");
    b.extend_from_slice(&listing_entry(112, 2, 10, 20, 30, 0x20, "f"));
    b.extend_from_slice(&listing_entry(112, 3, 0, 0, 0, 0x10, "d"));
    b.extend_from_slice(&listing_entry(0, 4, 11, 21, 31, 0x20, "g"));
    let mut out = vec![(9, 9, 9, 9)];
    nt_dir_query::read_listing(&b, &mut out);
    assert_eq!(out, vec![(9, 9, 9, 9), (2, 10, 20, 30), (4, 11, 21, 31)]);
}

#[test]
fn unreadable_directories_are_passed_over() {
    let a = listing_entry(0, 2, 10, 20, 30, 0x20, "f");
    let b = listing_entry(0, 4, 11, 21, 31, 0x20, "g");
    let dirs = vec![Some(vec![a.clone(), b.clone()]), None, Some(vec![b])];
    assert_eq!(
        nt_dir_query::fetch_dir_meta_batched(&dirs),
        vec![(2, 10, 20, 30), (4, 11, 21, 31), (4, 11, 21, 31)]
    );
    assert!(nt_dir_query::fetch_dir_meta_batched(&vec![]).is_empty());
}

#[test]
fn tasks_are_neither_many_nor_small() {
    assert_eq!(nt_dir_query::dirs_per_task(100, 4), 1024);
    assert_eq!(nt_dir_query::dirs_per_task(100_000, 4), 3125);
    assert_eq!(metadata_fill::files_per_block(100, 4), 4096);
    assert_eq!(metadata_fill::files_per_block(1_000_000, 4), 31_250);
    assert!(nt_dir_query::listing_progress_due(49_999, 50_000, 99_999));
    assert!(!nt_dir_query::listing_progress_due(50_000, 50_001, 99_999));
    assert!(metadata_fill::fill_progress_due(5, 7, 7));
    assert!(!metadata_fill::fill_progress_due(5, 6, 7));
}

#[test]
fn chunks_cover_all_items() {
    assert_eq!(nt_dir_query::chunk_size(100_000, 4, 1024), 3125);
    assert_eq!(nt_dir_query::chunk_size(100, 4, 1024), 1024);
    assert_eq!(nt_dir_query::chunk_size(64, 0, 1), 8);
    assert!(3125 * 32 >= 100_000);
    assert!(nt_dir_query::progress_due(49_999, 50_000, 90_000, 50_000));
    assert!(!nt_dir_query::progress_due(50_000, 60_000, 90_000, 50_000));
    assert!(nt_dir_query::progress_due(80_000, 90_000, 90_000, 50_000));
}

#[test]
fn pooled_reads_keep_their_places() {
    let places = vec![4, 7, 9];
    let got = vec![Some((1, 2, 3)), None];
    assert_eq!(metadata_fill::fill_metadata_by_id_pooled(&places, &got), vec![(4, 1, 2, 3)]);
    let got = vec![None, Some((5, 6, 7)), Some((8, 9, 10))];
    assert_eq!(
        metadata_fill::fill_metadata_by_id_pooled(&places, &got),
        vec![(7, 5, 6, 7), (9, 8, 9, 10)]
    );
    assert_eq!(metadata_fill::pool_progress(10, 20, 40), (30, 75));
    assert_eq!(metadata_fill::pool_progress(30, 20, 40), (40, 100));
    assert!(metadata_fill::cancel_check_due(256));
    assert!(!metadata_fill::cancel_check_due(257));
}

#[test]
fn files_are_opened_by_number_first() {
    let id = [3u8; 16];
    assert_eq!(open_by_id::ways_to_open(5, None), vec![open_by_id::OpenBy::Number(5)]);
    assert_eq!(
        open_by_id::ways_to_open(5, Some(id)),
        vec![open_by_id::OpenBy::Number(5), open_by_id::OpenBy::Identifier(id)]
    );
    let h = open_by_id::HandleInfo {
        size_high: 1,
        size_low: 2,
        write_high: 0,
        write_low: 3,
        creation_high: 4,
        creation_low: 0,
    };
    assert_eq!(
        open_by_id::fetch_file_metadata_by_id(Some(h)),
        Some((0x1_0000_0002, 3, 0x4_0000_0000))
    );
    assert_eq!(open_by_id::fetch_file_metadata_by_id(None), None);
}

// ---- scanning -----------------------------------------------------------------------------

fn entry(id: u64, parent: u64, name: &str, is_dir: bool) -> RawEntry {
    RawEntry {
        file_id: id,
        file_id_128: None,
        parent_id: parent,
        name: name.to_string(),
        size: 50,
        mtime: 1,
        ctime: 2,
        attrs: if is_dir { 0x10 } else { 0x20 },
        is_dir,
    }
}

#[test]
fn a_pass_splits_files_and_directories() {
    let mut p = mft::EnumPass::new();
    assert!(mft::wants_second_pass(&p));
    let b = batch(
        500,
        &[
            record_v2(1, 5, 0, 0x20, "a"),
            record_v2(2, 5, 0, 0x10, "d"),
            record_v2(5, 5, 0, 0x10, "."),
        ],
    );
    assert_eq!(p.take_batch(&b), 2);
    assert_eq!((p.files.len(), p.dirs.len(), p.next_start, p.done), (1, 1, 500, false));
    assert_eq!((p.files[0].name.as_str(), p.files[0].mtime, p.files[0].size), ("a", 777, 0));
    assert_eq!(p.take_batch(&batch(0, &[])), 0);
    assert!(p.done);
    assert!(!mft::wants_second_pass(&p));
    let mut q = mft::EnumPass::new();
    assert_eq!(q.take_batch(&[0; 3]), 0);
    assert!(q.done && !q.had_batch);
    let (mut scan, next) = volume_scan::scan_volume_fast(q, false);
    assert!(matches!(next, ScanNext::SecondPass));
    assert!(matches!(scan.on_second_pass(Some(p)), ScanNext::Done));
    assert_eq!((scan.files.len(), scan.dirs.len()), (1, 1));
}

#[test]
fn passes_end_where_the_system_says() {
    let answers = vec![
        EnumAnswer::Batch(batch(9, &[record_v2(1, 5, 0, 0x20, "a")])),
        EnumAnswer::EndOfTable,
        EnumAnswer::Failed("late".to_string()),
    ];
    let p = volume_scan::enum_usn_data_loop(&answers).unwrap();
    assert_eq!((p.files.len(), p.done, p.had_batch, p.next_start), (1, true, true, 9));
    let failed = vec![EnumAnswer::Failed("io".to_string())];
    assert!(matches!(
        volume_scan::enum_usn_data_loop(&failed),
        Err(Error::Platform(t)) if t == "DeviceIoControl(FSCTL_ENUM_USN_DATA): io"
    ));
    let mut p = mft::EnumPass::new();
    assert_eq!(volume_scan::on_answer(&mut p, &answers[0]).unwrap(), 1);
}

fn pass(files: Vec<RawEntry>, dirs: Vec<RawEntry>) -> mft::EnumPass {
    mft::EnumPass { files, dirs, had_batch: true, next_start: 0, done: true }
}

#[test]
fn a_full_scan_asks_for_listings_then_files() {
    let p = pass(
        vec![entry(1, 10, "a", false), entry(2, 11, "b", false)],
        vec![entry(11, 5, "y", true), entry(10, 5, "x", true), entry(12, 5, "z", true)],
    );
    let (mut scan, next) = volume_scan::scan_volume(p, true);
    match next {
        ScanNext::List(d) => assert_eq!(d, vec![(10, None), (11, None)]),
        other => panic!("{other:?}"),
    }
    match scan.on_listings(&vec![(1, 7, 8, 9)]) {
        ScanNext::Open(v) => assert_eq!(v, vec![1]),
        other => panic!("{other:?}"),
    }
    scan.dirs[0].attrs = 0x410;
    match scan.on_opened(&vec![(1, 3, 4, 5)]) {
        ScanNext::Subtrees(d) => assert_eq!(d, vec![(11, None)]),
        other => panic!("{other:?}"),
    }
    assert_eq!((scan.files[0].size, scan.files[1].size), (7, 3));
    assert_eq!((scan.files[0].file_id, scan.files[1].name.as_str()), (1, "b"));
    let item = |id: u64, name: &str| SubtreeItem {
        file_id: id,
        parent_id: 11,
        name: name.to_string(),
        attrs: 0x20,
        size: 6,
        mtime: 1,
        ctime: 1,
        is_dir: false,
    };
    assert!(matches!(scan.on_subtrees(vec![item(1, "a"), item(20, "new"), item(20, "new")]), ScanNext::Done));
    assert_eq!(scan.files.len(), 3);
    assert_eq!((scan.files[2].file_id, scan.files[2].size), (20, 6));
}

#[test]
fn an_empty_table_is_walked() {
    let (mut scan, next) = volume_scan::scan_volume(mft::EnumPass::new(), false);
    assert!(matches!(next, ScanNext::SecondPass));
    assert!(matches!(scan.on_second_pass(None), ScanNext::Walk));
    let (_, next) = volume_scan::scan_volume(pass(vec![], vec![entry(5, 5, "r", true)]), false);
    assert!(matches!(next, ScanNext::List(d) if d.is_empty()));
}

#[test]
fn final_paths_lose_their_mark() {
    let mut buf: Vec<u16> = "\\\\?\\C:\\a".encode_utf16().collect();
    let n = buf.len() as u32;
    assert_eq!(mft::resolve_path_by_id(&buf, n), None);
    buf.push(0);
    assert_eq!(mft::resolve_path_by_id(&buf, n).unwrap(), "C:\\a");
    assert_eq!(mft::resolve_path_by_id(&buf, 0), None);
    let share: Vec<u16> = "\\\\?\\UNC\\s\\x\0".encode_utf16().collect();
    assert_eq!(mft::resolve_path_by_id(&share, share.len() as u32 - 1).unwrap(), "\\\\?\\UNC\\s\\x");
}

#[test]
fn listings_fill_in_sizes() {
    let mut files = vec![entry(1, 10, "a", false), entry(2, 11, "b", false), entry(3, 10, "c", false)];
    let dirs = vec![entry(10, 5, "x", true), entry(12, 5, "y", true), entry(11, 5, "z", true)];
    assert_eq!(mft::directories_to_query(&files, &dirs), vec![(10, None), (11, None)]);
    mft::clear_sizes(&mut files);
    assert_eq!(files[0].size, 0);
    let miss = mft::apply_dir_meta(&mut files, &vec![(1, 7, 8, 9), (3, 1, 1, 1), (3, 4, 5, 6)]);
    assert_eq!(miss, vec![1]);
    assert_eq!((files[0].size, files[0].mtime, files[0].ctime), (7, 8, 9));
    assert_eq!((files[2].size, files[2].mtime, files[2].ctime), (4, 5, 6));
    assert_eq!((files[0].name.as_str(), files[0].file_id, files[0].parent_id), ("a", 1, 10));
    mft::apply_updates(&mut files, &vec![(1, 70, 80, 90), (99, 0, 0, 0)]);
    assert_eq!((files[1].size, files[1].mtime, files[1].ctime), (70, 80, 90));
}

fn item(name: &str, id: Option<u64>, is_dir: bool, size: Result<u64, String>) -> mft::WalkedItem {
    mft::WalkedItem { name: name.to_string(), file_id: id, parent_id: Some(9), is_dir, size }
}

#[test]
fn a_walk_stands_in_for_the_table() {
    let items = vec![
        item("a", Some(1), false, Ok(5)),
        item("", Some(2), false, Ok(6)),
        item("d", Some(3), true, Ok(0)),
        item("n", None, false, Ok(7)),
    ];
    let (files, dirs) = mft::scan_volume_walk_fallback(items, false).unwrap();
    assert_eq!((files.len(), dirs.len(), files[0].size, dirs[0].attrs), (1, 1, 5, 0x10));
    let (files, _) = mft::scan_volume_walk_fallback(vec![item("a", Some(1), false, Ok(5))], true).unwrap();
    assert_eq!(files[0].size, 0);
    match mft::scan_volume_walk_fallback(vec![item("a", Some(1), false, Err("io".to_string()))], true) {
        Err(Error::Platform(t)) => assert_eq!(t, "元数据: io"),
        _ => panic!("a size that cannot be read fails the walk"),
    }
    match mft::scan_volume_walk_fallback(vec![], true) {
        Err(Error::Platform(t)) => {
            assert_eq!(t, "MFT 枚举与目录遍历均未得到条目：请以管理员运行、确认卷为本地 NTFS。")
        },
        _ => panic!("an empty walk is a failure"),
    }
}

#[test]
fn reparse_subtrees_bring_only_newcomers() {
    let mut d = entry(10, 5, "link", true);
    d.attrs |= mft::ATTRIBUTE_REPARSE_POINT;
    let mut dirs = vec![d, entry(11, 5, "plain", true)];
    assert_eq!(mft::reparse_directories(&dirs), vec![(10, None)]);
    let mut files = vec![entry(1, 10, "a", false)];
    let mut known = mft::known_ids(&files, &dirs);
    assert_eq!(known, HashSet::from([1, 10, 11]));
    let sub = |id: u64, name: &str, is_dir: bool| mft::SubtreeItem {
        file_id: id,
        parent_id: 10,
        name: name.to_string(),
        attrs: 0x20,
        size: 4,
        mtime: 5,
        ctime: 6,
        is_dir,
    };
    let items = vec![sub(1, "a", false), sub(20, "b", false), sub(20, "b", false), sub(21, "e", true), sub(22, "", false)];
    mft::supplement_reparse_subtrees(&mut known, &mut files, &mut dirs, items, true);
    assert_eq!((files.len(), dirs.len()), (2, 3));
    assert_eq!((files[1].file_id, files[1].size, files[1].mtime), (20, 0, 0));
    assert!(known.contains(&20) && known.contains(&21) && !known.contains(&22));
    let all = mft::MftScanner.scan(files, dirs);
    assert_eq!(all.len(), 5);
    assert_eq!(all[2].file_id, 10);
}

#[test]
fn subtree_paths_belong_to_a_volume() {
    assert!(mft::subtree_on_volume("c:", "C:\\x"));
    assert!(!mft::subtree_on_volume("D:", "C:\\x"));
    assert!(!mft::subtree_on_volume("C:", "C:"));
    assert_eq!(mft::without_verbatim_mark("\\\\?\\C:\\x"), "C:\\x");
    assert_eq!(mft::without_verbatim_mark("\\\\?\\UNC\\s\\x"), "\\\\?\\UNC\\s\\x");
    assert_eq!(mft::combine(1, 5), 0x1_0000_0005);
}

// ---- volumes ------------------------------------------------------------------------------

#[test]
fn drive_spellings_agree() {
    for v in ["c", "C", "c:", "C:\\", " c: "] {
        assert_eq!(volumes::volume_device_path(v), "\\\\.\\C:");
        assert_eq!(volumes::volume_root_for_info(v), "C:\\");
    }
    assert_eq!(volumes::volume_path("\\\\.\\D:"), "\\\\.\\D:");
    assert_eq!(volumes::normalize_volume_path(&volumes::volume_path("e")), "\\\\.\\E:");
    assert_eq!(volumes::volume_to_folder_root("c"), "C:\\");
    assert_eq!(volumes::volume_drive_letter(" d:\\"), Some(b'D'));
    assert_eq!(volumes::volume_drive_letter("1:"), None);
    assert_eq!(volumes::index_letter_of("\\\\.\\e:"), b'E');
    assert_eq!(volumes::index_letter_of("123"), b'C');
}

#[test]
fn there_is_always_a_volume() {
    let mut types = vec![1u32; 26];
    types[2] = volumes::DRIVE_FIXED;
    types[4] = volumes::DRIVE_REMOVABLE;
    types[5] = volumes::DRIVE_REMOTE;
    let local = volumes::enumerate_local_drive_letters(&types);
    assert_eq!(local, vec!["C:", "E:"]);
    assert_eq!(volumes::resolve_volume_list(None, None, local.clone()), vec!["C:", "E:"]);
    assert_eq!(volumes::resolve_volume_list(None, None, vec![]), vec!["C:"]);
    assert_eq!(volumes::resolve_volume_list(Some("D:".into()), None, local.clone()), vec!["D:"]);
    assert_eq!(volumes::resolve_volume_list(None, Some(vec![]), local.clone()), vec!["C:"]);
    assert_eq!(
        volumes::resolve_volume_list(Some("D:".into()), Some(vec!["F:".into()]), local),
        vec!["F:"]
    );
    assert_eq!(volumes::scan_threads(0, 5), 1);
    assert_eq!(volumes::scan_threads(8, 3), 3);
    assert_eq!(volumes::scan_threads(2, 3), 2);
    assert_eq!(volumes::scan_threads(4, 0), 1);
}

#[test]
fn drives_of_the_settings_page() {
    let mut probes: Vec<volumes::DriveProbe> =
        (0..26).map(|_| volumes::DriveProbe { drive_type: 1, filesystem: None }).collect();
    let mut fs: Vec<u16> = "NTFS".encode_utf16().collect();
    fs.extend([0, 0, 0]);
    probes[2] = volumes::DriveProbe { drive_type: 3, filesystem: Some(fs.clone()) };
    probes[3] = volumes::DriveProbe { drive_type: 5, filesystem: Some(fs) };
    probes[4] = volumes::DriveProbe { drive_type: 4, filesystem: None };
    let d = volumes::list_drives(0b11111, &probes);
    assert_eq!(d.len(), 3);
    assert_eq!((d[0].letter.as_str(), d[0].path.as_str(), d[0].filesystem.as_str()), ("C:", "C:\\", "NTFS"));
    assert!(d[0].is_ntfs && d[0].can_open_volume);
    assert!(d[1].is_ntfs && !d[1].can_open_volume && d[1].drive_type == "cdrom");
    assert_eq!((d[2].drive_type.as_str(), d[2].filesystem.as_str()), ("remote", ""));
    assert!(volumes::list_drives(0, &probes).is_empty());
}

#[test]
fn walked_files_of_a_full_scan_are_opened() {
    let walk = || {
        vec![
            item("a", Some(1), false, Ok(5)),
            item("d", Some(2), true, Ok(0)),
            item("b", Some(3), false, Ok(6)),
        ]
    };
    let nothing = || mft::EnumPass { files: vec![], dirs: vec![], had_batch: false, next_start: 0, done: true };
    let (mut scan, next) = volume_scan::scan_volume(nothing(), true);
    assert!(matches!(next, ScanNext::SecondPass));
    assert!(matches!(scan.on_second_pass(None), ScanNext::Walk));
    match scan.on_walked(walk()).unwrap() {
        ScanNext::Open(v) => assert_eq!(v, vec![0, 1]),
        other => panic!("{other:?}"),
    }
    assert!(matches!(scan.on_opened(&vec![(1, 60, 7, 8)]), ScanNext::Done));
    assert_eq!((scan.files[0].size, scan.files[1].size, scan.files[1].mtime), (5, 60, 7));
    assert_eq!(scan.dirs.len(), 1);
    let (mut scan, _) = volume_scan::scan_volume_fast(nothing(), true);
    scan.on_second_pass(None);
    assert!(matches!(scan.on_walked(walk()).unwrap(), ScanNext::Done));
    assert_eq!(scan.files[0].size, 0);
    assert!(scan.on_walked(vec![]).is_err());
    assert_eq!(scan.files.len(), 2);
}
