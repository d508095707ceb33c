use justkv::bench::{Rows, FIRST_SEED};
use justkv::store::csv_loader::{parse_csv, LoadOptions};

#[test]
fn rows_are_numbered_and_the_same_in_every_run() {
    let mut seed: u64 = FIRST_SEED;
    let mut expected = String::new();
    let mut out = String::new();
    let mut rows = Rows::new();
    for i in 0..100 {
        seed ^= seed << 13;
        seed ^= seed >> 7;
        seed ^= seed << 17;
        expected.push_str(&format!("key{i}\tvalue-{i}-{seed:016x}\n"));
        rows.push_row(&mut out);
    }
    assert_eq!(out, expected);
    let opts = LoadOptions { delimiter: b'\t', ..LoadOptions::default() };
    let (_, entries) = parse_csv(out.as_bytes(), &opts).unwrap();
    assert_eq!(entries.len(), 100);
}
