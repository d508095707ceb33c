use justkv::store::compiled::{write_compiled, CompiledError, FLAG_BINARY};
use justkv::store::csv_loader::LoadOptions;
use justkv::store::{load, Entry, LoadFailure, SourceFormat, Store};

fn sample() -> Store {
    // "akey"+"aval"+"bkey"+"bval"
    let arena = b"akeyavalbkeybval".to_vec();
    let entries = vec![
        Entry { k_off: 0, k_len: 4, v_off: 4, v_len: 4 },
        Entry { k_off: 8, k_len: 4, v_off: 12, v_len: 4 },
    ];
    Store::from_parts(arena, entries)
}

#[test]
fn get_returns_value_for_present_key() {
    let s = sample();
    assert_eq!(s.get(b"akey").as_deref(), Some(&b"aval"[..]));
    assert_eq!(s.get(b"bkey").as_deref(), Some(&b"bval"[..]));
}

#[test]
fn get_returns_none_for_absent_key() {
    assert!(sample().get(b"zzzz").is_none());
}

#[test]
fn get_does_not_match_on_prefix_or_substring() {
    let s = sample();
    assert!(s.get(b"ake").is_none());
    assert!(s.get(b"akeyaval").is_none());
}

#[test]
fn empty_key_and_empty_value_are_representable() {
    let arena = b"x".to_vec();
    // key "" -> value "x", and key "x" -> value ""
    let entries = vec![
        Entry { k_off: 0, k_len: 0, v_off: 0, v_len: 1 },
        Entry { k_off: 0, k_len: 1, v_off: 0, v_len: 0 },
    ];
    let s = Store::from_parts(arena, entries);
    assert_eq!(s.get(b"").as_deref(), Some(&b"x"[..]));
    assert_eq!(s.get(b"x").as_deref(), Some(&b""[..]));
}

#[test]
fn reports_len_and_arena_len() {
    let s = sample();
    assert_eq!(s.len(), 2);
    assert_eq!(s.arena_len(), 16);
}

#[test]
fn an_empty_store_has_no_keys() {
    let s = Store::from_parts(Vec::new(), Vec::new());
    assert!(s.is_empty());
    assert_eq!(s.len(), 0);
    assert!(s.get(b"").is_none());
    assert!(!sample().is_empty());
}

#[test]
fn the_arena_is_kept_as_given() {
    assert_eq!(sample().arena(), b"akeyavalbkeybval");
}

#[test]
fn an_entry_reads_its_key() {
    let e = Entry { k_off: 8, k_len: 4, v_off: 12, v_len: 4 };
    assert_eq!(e.key(b"akeyavalbkeybval"), b"bkey");
}

#[test]
fn a_thousand_keys_are_all_found() {
    let mut arena = Vec::new();
    let mut entries = Vec::new();
    for i in 0..1000u32 {
        let (k, v) = (format!("key{i}"), format!("value-{}", i * 7));
        entries.push(Entry {
            k_off: arena.len() as u32,
            k_len: k.len() as u32,
            v_off: (arena.len() + k.len()) as u32,
            v_len: v.len() as u32,
        });
        arena.extend_from_slice(k.as_bytes());
        arena.extend_from_slice(v.as_bytes());
    }
    let s = Store::from_parts(arena, entries);
    assert_eq!(s.len(), 1000);
    for i in 0..1000u32 {
        let found = s.get(format!("key{i}").as_bytes());
        assert_eq!(found.as_deref(), Some(format!("value-{}", i * 7).as_bytes()));
    }
    assert!(s.get(b"key1000").is_none());
}

#[test]
fn the_order_of_entries_does_not_matter() {
    let arena = b"akeyavalbkeybval".to_vec();
    let a = Entry { k_off: 0, k_len: 4, v_off: 4, v_len: 4 };
    let b = Entry { k_off: 8, k_len: 4, v_off: 12, v_len: 4 };
    let one = Store::from_parts(arena.clone(), vec![a, b]);
    let other = Store::from_parts(arena, vec![b, a]);
    for key in [&b"akey"[..], b"bkey", b"", b"aval"] {
        assert_eq!(one.get(key), other.get(key));
    }
    assert_eq!(other.get(b"akey").as_deref(), Some(&b"aval"[..]));
}

#[test]
fn load_chooses_the_loader_by_the_magic() {
    let l = load(Ok(b"a,1\nb,2\n".to_vec()), "kv.csv", &LoadOptions::default()).ok().unwrap();
    assert_eq!(l.format, SourceFormat::Csv);
    assert_eq!(l.format.as_str(), "csv");
    assert_eq!(l.flags, 0);
    assert_eq!(l.source, "kv.csv");
    assert_eq!(l.store.get(b"b").as_deref(), Some(&b"2"[..]));

    let mut image = Vec::new();
    let entries = [Entry { k_off: 0, k_len: 1, v_off: 1, v_len: 1 }];
    write_compiled(&mut image, b"a1", &entries, FLAG_BINARY);
    let l = load(Ok(image), "kv.bin", &LoadOptions::default()).ok().unwrap();
    assert_eq!(l.format, SourceFormat::Compiled);
    assert_eq!(l.format.as_str(), "compiled");
    assert_eq!(l.flags, FLAG_BINARY);
    assert_eq!(l.store.get(b"a").as_deref(), Some(&b"1"[..]));
}

#[test]
fn a_binary_csv_is_loaded_with_the_binary_flag() {
    let opts = LoadOptions { allow_binary: true, ..LoadOptions::default() };
    let l = load(Ok(b"k,\xff\n".to_vec()), "kv.csv", &opts).ok().unwrap();
    assert_eq!(l.flags, FLAG_BINARY);
    assert_eq!(l.store.get(b"k").as_deref(), Some(&b"\xff"[..]));
}

#[test]
fn load_says_why_it_failed() {
    let opts = LoadOptions::default();
    let io = load(Err("no such file".to_string()), "x", &opts).err().unwrap();
    assert!(matches!(io, LoadFailure::Io(_)));
    assert_eq!(io.to_string(), "no such file");

    let data = load(Ok(b"a,1\na,2\nb\n".to_vec()), "x", &opts).err().unwrap();
    assert!(matches!(data, LoadFailure::Data(_)));
    assert_eq!(
        data.to_string(),
        "line 2: duplicate key \"a\", first seen on line 1\n\
         line 3: expected 2 columns, found 1\n\
         2 problem(s) found"
    );

    let compiled = load(Ok(b"JUSTKV01".to_vec()), "x", &opts).err().unwrap();
    assert!(matches!(compiled, LoadFailure::Compiled(CompiledError::Truncated)));
}
