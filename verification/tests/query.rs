use justkv::server::query::key_from_query;

#[test]
fn extracts_k_parameter_from_raw_query() {
    assert_eq!(key_from_query(Some("k=abc")).as_deref(), Some(&b"abc"[..]));
    assert_eq!(
        key_from_query(Some("x=1&k=abc&y=2")).as_deref(),
        Some(&b"abc"[..])
    );
}

#[test]
fn empty_k_parameter_is_the_empty_key_not_absent() {
    assert_eq!(key_from_query(Some("k=")).as_deref(), Some(&b""[..]));
}

#[test]
fn missing_k_parameter_yields_none() {
    assert!(key_from_query(Some("j=abc")).is_none());
    assert!(key_from_query(None).is_none());
}

#[test]
fn percent_decodes_and_allows_non_utf8_bytes() {
    assert_eq!(
        key_from_query(Some("k=a%2Fb")).as_deref(),
        Some(&b"a/b"[..])
    );
    assert_eq!(
        key_from_query(Some("k=%FF%FE")).as_deref(),
        Some(&b"\xff\xfe"[..])
    );
}

#[test]
fn plus_is_decoded_as_space() {
    assert_eq!(key_from_query(Some("k=a+b")).as_deref(), Some(&b"a b"[..]));
}

#[test]
fn an_encoded_plus_stays_a_plus() {
    assert_eq!(key_from_query(Some("k=a%2Bb%2b")).as_deref(), Some(&b"a+b+"[..]));
}

#[test]
fn a_percent_sign_without_two_digits_stands_for_itself() {
    assert_eq!(key_from_query(Some("k=100%")).as_deref(), Some(&b"100%"[..]));
    assert_eq!(key_from_query(Some("k=%4")).as_deref(), Some(&b"%4"[..]));
    assert_eq!(key_from_query(Some("k=%zz%41")).as_deref(), Some(&b"%zzA"[..]));
    assert_eq!(key_from_query(Some("k=%%41")).as_deref(), Some(&b"%A"[..]));
}

#[test]
fn the_first_k_counts() {
    assert_eq!(key_from_query(Some("k=1&k=2")).as_deref(), Some(&b"1"[..]));
    assert_eq!(key_from_query(Some("k&k=2")).as_deref(), Some(&b""[..]));
    assert_eq!(key_from_query(Some("kk=1&&k=a=b")).as_deref(), Some(&b"a=b"[..]));
    assert!(key_from_query(Some("")).is_none());
    assert!(key_from_query(Some("=k")).is_none());
    assert!(key_from_query(Some("%6b=1")).is_none());
}

#[test]
fn every_byte_can_be_asked_for() {
    for b in 0..=255u8 {
        let query = format!("x=1&k=%{b:02X}&k=2");
        assert_eq!(key_from_query(Some(&query)), Some(vec![b]));
        let query = format!("k=%{b:02x}");
        assert_eq!(key_from_query(Some(&query)), Some(vec![b]));
    }
}

#[test]
fn a_key_beyond_ascii_may_stand_as_it_is() {
    assert_eq!(key_from_query(Some("\u{e9}&k=\u{e9}")).as_deref(), Some("\u{e9}".as_bytes()));
}
