use justkv::path::DataPath;
use justkv::store::csv_loader::{parse_csv, DataError, DataErrorKind, LoadOptions, RowLoader};
use justkv::store::Store;

fn parse_ok(data: &[u8], opts: &LoadOptions) -> Store {
    let (arena, entries) = parse_csv(data, opts).expect("expected clean parse");
    Store::from_parts(arena, entries)
}

#[test]
fn parses_simple_comma_rows() {
    let s = parse_ok(b"a,1\nb,2\n", &LoadOptions::default());
    assert_eq!(s.len(), 2);
    assert_eq!(s.get(b"a").as_deref(), Some(&b"1"[..]));
    assert_eq!(s.get(b"b").as_deref(), Some(&b"2"[..]));
}

#[test]
fn infers_tab_delimiter_from_tsv_extension() {
    assert_eq!(LoadOptions::delimiter_for_path(&DataPath::new("kv.tsv")), b'\t');
    assert_eq!(LoadOptions::delimiter_for_path(&DataPath::new("kv.csv")), b',');
    assert_eq!(LoadOptions::delimiter_for_path(&DataPath::new("kv.dat")), b',');
    assert_eq!(LoadOptions::delimiter_for_path(&DataPath::new("KV.TSV")), b'\t');
}

#[test]
fn parses_tab_separated_values() {
    let opts = LoadOptions { delimiter: b'\t', ..LoadOptions::default() };
    let s = parse_ok(b"a\t1\nb\t2\n", &opts);
    assert_eq!(s.get(b"a").as_deref(), Some(&b"1"[..]));
}

#[test]
fn decodes_rfc4180_quoting_including_escaped_quotes() {
    // value is:  he said "hi", ok
    let s = parse_ok(b"k,\"he said \"\"hi\"\", ok\"\n", &LoadOptions::default());
    assert_eq!(s.get(b"k").as_deref(), Some(&b"he said \"hi\", ok"[..]));
}

#[test]
fn decodes_embedded_newline_in_quoted_value() {
    let s = parse_ok(b"k,\"line1\nline2\"\n", &LoadOptions::default());
    assert_eq!(s.get(b"k").as_deref(), Some(&b"line1\nline2"[..]));
}

#[test]
fn accepts_empty_value_and_empty_key() {
    let s = parse_ok(b"k,\n,v\n", &LoadOptions::default());
    assert_eq!(s.get(b"k").as_deref(), Some(&b""[..]));
    assert_eq!(s.get(b"").as_deref(), Some(&b"v"[..]));
}

#[test]
fn skips_header_row_when_requested() {
    let opts = LoadOptions { has_header: true, ..LoadOptions::default() };
    let s = parse_ok(b"key,value\na,1\n", &opts);
    assert_eq!(s.len(), 1);
    assert!(s.get(b"key").is_none());
    assert_eq!(s.get(b"a").as_deref(), Some(&b"1"[..]));
}

#[test]
fn duplicate_key_reports_key_and_both_line_numbers() {
    let errs = parse_csv(b"a,1\nb,2\na,3\n", &LoadOptions::default()).unwrap_err();
    assert_eq!(errs.len(), 1);
    assert_eq!(errs[0].line, 3);
    match &errs[0].kind {
        DataErrorKind::DuplicateKey { key, first_line } => {
            assert_eq!(key, "a");
            assert_eq!(*first_line, 1);
        }
        other => panic!("expected DuplicateKey, got {other:?}"),
    }
}

#[test]
fn wrong_column_count_reports_line_and_count() {
    let errs = parse_csv(b"a,1\nb,2,3\n", &LoadOptions::default()).unwrap_err();
    assert_eq!(errs[0].line, 2);
    assert!(matches!(errs[0].kind, DataErrorKind::WrongColumnCount { found: 3 }));
}

#[test]
fn collects_every_error_not_just_the_first() {
    let errs = parse_csv(b"a,1\nb\nc,2,3\na,9\n", &LoadOptions::default()).unwrap_err();
    assert_eq!(errs.len(), 3, "got: {errs:?}");
    assert_eq!(errs.iter().map(|e| e.line).collect::<Vec<_>>(), vec![2, 3, 4]);
}

#[test]
fn rejects_non_utf8_value_by_default() {
    let errs = parse_csv(b"k,\xff\xfe\n", &LoadOptions::default()).unwrap_err();
    assert!(matches!(errs[0].kind, DataErrorKind::InvalidUtf8Value));
}

#[test]
fn accepts_non_utf8_value_when_allow_binary() {
    let opts = LoadOptions { allow_binary: true, ..LoadOptions::default() };
    let s = parse_ok(b"k,\xff\xfe\n", &opts);
    assert_eq!(s.get(b"k").as_deref(), Some(&b"\xff\xfe"[..]));
}

#[test]
fn error_display_mentions_line_number() {
    let errs = parse_csv(b"a,1\na,2\n", &LoadOptions::default()).unwrap_err();
    assert!(errs[0].to_string().contains("line 2"), "got: {}", errs[0].to_string());
}

#[test]
fn default_options_read_plain_commas() {
    let opts = LoadOptions::default();
    assert_eq!(opts.delimiter, b',');
    assert!(!opts.has_header && !opts.allow_binary);
}

#[test]
fn no_rows_make_an_empty_dataset() {
    let (arena, entries) = parse_csv(b"", &LoadOptions::default()).unwrap();
    assert!(arena.is_empty() && entries.is_empty());
}

#[test]
fn pairs_are_packed_in_the_order_of_their_rows() {
    let (arena, entries) = parse_csv(b"ab,1\nc,234\n", &LoadOptions::default()).unwrap();
    assert_eq!(arena, b"ab1c234");
    assert_eq!((entries[0].k_off, entries[0].k_len), (0, 2));
    assert_eq!((entries[0].v_off, entries[0].v_len), (2, 1));
    assert_eq!((entries[1].k_off, entries[1].k_len), (3, 1));
    assert_eq!((entries[1].v_off, entries[1].v_len), (4, 3));
}

#[test]
fn a_third_occurrence_still_names_the_first_row() {
    let errs = parse_csv(b"a,1\na,2\na,3\n", &LoadOptions::default()).unwrap_err();
    assert_eq!(errs.len(), 2);
    for e in &errs {
        assert!(matches!(e.kind, DataErrorKind::DuplicateKey { first_line: 1, .. }), "{e:?}");
    }
}

#[test]
fn lines_inside_quoted_values_are_counted() {
    let errs = parse_csv(b"a,\"1\n2\"\nb\n", &LoadOptions::default()).unwrap_err();
    assert_eq!(errs[0].line, 3);
}

#[test]
fn keys_need_not_be_utf8() {
    let s = parse_ok(b"\xff,v\n", &LoadOptions::default());
    assert_eq!(s.get(b"\xff").as_deref(), Some(&b"v"[..]));
}

#[test]
fn a_duplicate_key_that_is_not_utf8_is_shown_as_well_as_it_can_be() {
    let errs = parse_csv(b"\xff,1\n\xff,2\n", &LoadOptions::default()).unwrap_err();
    match &errs[0].kind {
        DataErrorKind::DuplicateKey { key, .. } => assert_eq!(key, "\u{fffd}"),
        other => panic!("expected DuplicateKey, got {other:?}"),
    }
}

#[test]
fn every_kind_of_problem_has_its_message() {
    let text = |kind: DataErrorKind| DataError { line: 7, kind }.to_string();
    assert_eq!(
        text(DataErrorKind::WrongColumnCount { found: 3 }),
        "line 7: expected 2 columns, found 3"
    );
    assert_eq!(
        text(DataErrorKind::DuplicateKey { key: "a\"b".to_string(), first_line: 12 }),
        "line 7: duplicate key \"a\\\"b\", first seen on line 12"
    );
    assert_eq!(
        text(DataErrorKind::InvalidUtf8Value),
        "line 7: value is not valid UTF-8 (pass --allow-binary to permit)"
    );
    assert_eq!(
        text(DataErrorKind::Malformed("broken".to_string())),
        "line 7: malformed row: broken"
    );
    assert_eq!(
        text(DataErrorKind::TooLarge),
        "line 7: dataset exceeds the 4 GiB limit imposed by u32 offsets"
    );
}

#[test]
fn rows_that_cannot_be_read_are_reported() {
    let mut rows = RowLoader::new(false, 0);
    rows.push_pair(1, b"a", b"1");
    assert!(!rows.is_stopped());
    rows.push_malformed(2, "broken".to_string());
    // What the reader yields after an error cannot be relied on.
    assert!(rows.is_stopped());
    let errs = rows.finish().unwrap_err();
    assert_eq!(errs.len(), 1);
    assert_eq!(errs[0].to_string(), "line 2: malformed row: broken");
}

#[test]
fn rows_can_be_loaded_one_by_one() {
    let mut rows = RowLoader::new(false, 16);
    rows.push_pair(1, b"a", b"1");
    rows.push_pair(2, b"b", b"2");
    let (arena, entries) = rows.finish().unwrap();
    assert_eq!(arena, b"a1b2");
    assert_eq!(entries.len(), 2);

    let mut rows = RowLoader::new(false, 0);
    rows.push_wrong_columns(4, 1);
    rows.push_pair(5, b"k", b"\xff");
    let errs = rows.finish().unwrap_err();
    assert_eq!(errs.iter().map(|e| e.line).collect::<Vec<_>>(), vec![4, 5]);
}

#[test]
fn quoted_pairs_come_back_as_they_were() {
    let pairs: [(&[u8], &[u8]); 6] = [
        (b"", b""),
        (b"\"", b"\"\""),
        (b"a,b", b"\r\n"),
        (b"\n", b"\0"),
        (b"\xff", "\u{e9}".as_bytes()),
        (b"\xef\xbb\xbf", b" "),
    ];
    for delimiter in [b',', b'\t', b';', b'a', 0] {
        let mut text = Vec::new();
        for (k, v) in &pairs {
            for (field, end) in [(k, delimiter), (v, b'\n')] {
                text.push(b'"');
                for b in field.iter() {
                    text.push(*b);
                    if *b == b'"' {
                        text.push(b'"');
                    }
                }
                text.push(b'"');
                text.push(end);
            }
        }
        let opts = LoadOptions { delimiter, ..LoadOptions::default() };
        let (arena, entries) = parse_csv(&text, &opts).unwrap();
        assert_eq!(entries.len(), pairs.len());
        for (e, (k, v)) in entries.iter().zip(&pairs) {
            assert_eq!(&arena[e.k_off as usize..][..e.k_len as usize], *k);
            assert_eq!(&arena[e.v_off as usize..][..e.v_len as usize], *v);
        }
    }
}

#[test]
fn plain_and_quoted_fields_are_read_as_written_with_their_lines() {
    let text = b"a,\"1\n2\"\n\"b\",\n x ,y z\n,\nlone\n\"\"\n";
    let errs = parse_csv(text, &LoadOptions::default()).unwrap_err();
    // The last two rows have one field each, on the lines where they start.
    assert_eq!(errs.iter().map(|e| e.line).collect::<Vec<_>>(), vec![6, 7]);
    let clean = &text[..text.len() - b"lone\n\"\"\n".len()];
    let s = parse_ok(clean, &LoadOptions::default());
    assert_eq!(s.len(), 4);
    assert_eq!(s.get(b"a").as_deref(), Some(&b"1\n2"[..]));
    assert_eq!(s.get(b"b").as_deref(), Some(&b""[..]));
    assert_eq!(s.get(b" x ").as_deref(), Some(&b"y z"[..]));
    assert_eq!(s.get(b"").as_deref(), Some(&b""[..]));
}

#[test]
fn a_header_is_the_first_row_and_nothing_else() {
    let with = LoadOptions { has_header: true, ..LoadOptions::default() };
    assert!(parse_ok(b"", &with).is_empty());
    assert!(parse_ok(b"only,one\n", &with).is_empty());
    // A header may have any number of fields, and the rows keep their lines.
    let errs = parse_csv(b"h\na,1\na,2\n", &with).unwrap_err();
    assert_eq!(errs.len(), 1);
    assert_eq!(errs[0].to_string(), "line 3: duplicate key \"a\", first seen on line 2");
}

#[test]
fn exactly_the_binary_values_are_refused() {
    let text = b"a,1\nb,\xff\nc,\xc3\xa9\nd,\xc3\n";
    let binary = LoadOptions { allow_binary: true, ..LoadOptions::default() };
    assert_eq!(parse_ok(text, &binary).len(), 4);
    let errs = parse_csv(text, &LoadOptions::default()).unwrap_err();
    assert_eq!(errs.iter().map(|e| e.line).collect::<Vec<_>>(), vec![2, 4]);
    assert!(errs.iter().all(|e| matches!(e.kind, DataErrorKind::InvalidUtf8Value)));
}
