use justkv::store::compiled::{
    dataset_flags, is_compiled, read_compiled, write_compiled, CompiledError, FLAG_BINARY, MAGIC,
};
use justkv::store::Entry;

fn fixture() -> (Vec<u8>, Vec<Entry>) {
    (
        b"akeyavalbkeybval".to_vec(),
        vec![
            Entry { k_off: 0, k_len: 4, v_off: 4, v_len: 4 },
            Entry { k_off: 8, k_len: 4, v_off: 12, v_len: 4 },
        ],
    )
}

#[test]
fn round_trips_arena_entries_and_flags() {
    let (arena, entries) = fixture();
    let mut buf = Vec::new();
    write_compiled(&mut buf, &arena, &entries, FLAG_BINARY);
    let (a2, e2, flags) = read_compiled(&buf).unwrap();
    assert_eq!(a2, arena);
    assert_eq!(e2, entries);
    assert_eq!(flags, FLAG_BINARY);
}

#[test]
fn written_header_has_expected_layout() {
    let (arena, entries) = fixture();
    let mut buf = Vec::new();
    write_compiled(&mut buf, &arena, &entries, 0);
    assert_eq!(&buf[0..8], &MAGIC);
    assert_eq!(u32::from_le_bytes(buf[8..12].try_into().unwrap()), 0);
    assert_eq!(u32::from_le_bytes(buf[12..16].try_into().unwrap()), 2);
    assert_eq!(u32::from_le_bytes(buf[16..20].try_into().unwrap()), 16);
    assert_eq!(buf.len(), 24 + 16 * 2 + 16);
}

#[test]
fn round_trips_empty_dataset() {
    let mut buf = Vec::new();
    write_compiled(&mut buf, &[], &[], 0);
    let (a, e, f) = read_compiled(&buf).unwrap();
    assert!(a.is_empty() && e.is_empty() && f == 0);
}

#[test]
fn is_compiled_detects_magic() {
    let (arena, entries) = fixture();
    let mut buf = Vec::new();
    write_compiled(&mut buf, &arena, &entries, 0);
    assert!(is_compiled(&buf));
    assert!(!is_compiled(b"a,1\nb,2\n"));
    assert!(!is_compiled(b"JUS"));
    assert!(!is_compiled(b""));
}

#[test]
fn rejects_bad_magic() {
    let err = read_compiled(b"NOTMAGIC________________").unwrap_err();
    assert!(matches!(err, CompiledError::BadMagic));
}

#[test]
fn rejects_truncated_header() {
    assert!(matches!(read_compiled(b"JUSTKV01").unwrap_err(), CompiledError::Truncated));
}

#[test]
fn rejects_truncated_body() {
    let (arena, entries) = fixture();
    let mut buf = Vec::new();
    write_compiled(&mut buf, &arena, &entries, 0);
    buf.truncate(buf.len() - 4);
    assert!(matches!(read_compiled(&buf).unwrap_err(), CompiledError::Truncated));
}

#[test]
fn rejects_entry_pointing_outside_arena() {
    let arena = b"abc".to_vec();
    let entries = vec![Entry { k_off: 0, k_len: 1, v_off: 1, v_len: 99 }];
    let mut buf = Vec::new();
    write_compiled(&mut buf, &arena, &entries, 0);
    assert!(matches!(read_compiled(&buf).unwrap_err(), CompiledError::OutOfBounds { index: 0 }));
}

#[test]
fn the_first_entry_outside_the_arena_is_named() {
    let (arena, mut entries) = fixture();
    entries[1].k_off = u32::MAX;
    entries[1].k_len = u32::MAX;
    entries.push(Entry { k_off: 0, k_len: 99, v_off: 0, v_len: 0 });
    let mut buf = Vec::new();
    write_compiled(&mut buf, &arena, &entries, 0);
    assert!(matches!(read_compiled(&buf).unwrap_err(), CompiledError::OutOfBounds { index: 1 }));
}

#[test]
fn every_cut_of_an_image_is_refused() {
    let (arena, entries) = fixture();
    let mut buf = Vec::new();
    write_compiled(&mut buf, &arena, &entries, 0);
    for n in 8..buf.len() {
        assert!(matches!(read_compiled(&buf[..n]).unwrap_err(), CompiledError::Truncated), "{n}");
    }
    assert!(read_compiled(&buf).is_ok());
}

#[test]
fn an_image_is_appended_to_what_is_there() {
    let mut plain = Vec::new();
    let (arena, entries) = fixture();
    write_compiled(&mut plain, &arena, &entries, 5);
    let mut buf = b"before".to_vec();
    write_compiled(&mut buf, &arena, &entries, 5);
    assert_eq!(&buf[..6], b"before");
    assert_eq!(&buf[6..], &plain[..]);
}

#[test]
fn an_image_is_laid_out_byte_by_byte() {
    let mut buf = Vec::new();
    let entries = [Entry { k_off: 0, k_len: 1, v_off: 1, v_len: 0x0102 }];
    write_compiled(&mut buf, b"kv", &entries, 1);
    let mut expected = b"JUSTKV01".to_vec();
    expected.extend_from_slice(&[1, 0, 0, 0, 1, 0, 0, 0, 2, 0, 0, 0, 0, 0, 0, 0]);
    expected.extend_from_slice(&[0, 0, 0, 0, 1, 0, 0, 0, 1, 0, 0, 0, 2, 1, 0, 0]);
    expected.extend_from_slice(b"kv");
    assert_eq!(buf, expected);
}

#[test]
fn flags_say_whether_values_may_be_binary() {
    assert_eq!(dataset_flags(true), FLAG_BINARY);
    assert_eq!(dataset_flags(false), 0);
}

#[test]
fn each_refusal_has_its_message() {
    assert_eq!(CompiledError::BadMagic.to_string(), "not a justkv compiled file (bad magic)");
    assert_eq!(CompiledError::Truncated.to_string(), "compiled file is truncated");
    assert_eq!(
        CompiledError::OutOfBounds { index: 30 }.to_string(),
        "entry 30 points outside the arena"
    );
}
