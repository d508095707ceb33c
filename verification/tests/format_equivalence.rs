use justkv::store::compiled::{read_compiled, write_compiled};
use justkv::store::csv_loader::{parse_csv, LoadOptions};
use justkv::store::Store;

/// Render key/value pairs as RFC 4180 CSV, quoting every field so that
/// commas, quotes and newlines survive the round trip.
fn to_csv(pairs: &[(String, String)]) -> Vec<u8> {
    let mut out = String::new();
    for (k, v) in pairs {
        out.push('"');
        out.push_str(&k.replace('"', "\"\""));
        out.push_str("\",\"");
        out.push_str(&v.replace('"', "\"\""));
        out.push_str("\"\n");
    }
    out.into_bytes()
}

struct Dice(u64);

impl Dice {
    fn roll(&mut self, sides: u64) -> u64 {
        self.0 ^= self.0 << 13;
        self.0 ^= self.0 >> 7;
        self.0 ^= self.0 << 17;
        self.0 % sides
    }

    fn text(&mut self, longest: u64) -> String {
        let odd = ['"', ',', '\n', '\r', '\t', ' ', '\0', '\u{e9}', '\u{4e2d}', '\u{1f600}', '\\'];
        let n = self.roll(longest + 1);
        let mut s = String::new();
        for _ in 0..n {
            if self.roll(3) == 0 {
                s.push(odd[self.roll(odd.len() as u64) as usize]);
            } else {
                s.push((b'a' + self.roll(26) as u8) as char);
            }
        }
        s
    }
}

/// The two load paths must be indistinguishable: whatever the CSV loader
/// produces, compiling and reloading it must yield the same store.
#[test]
fn csv_and_compiled_paths_agree() {
    let mut dice = Dice(0x2545F4914F6CDD1D);
    for _ in 0..200 {
        // Distinct keys only: duplicates are a validation error.
        let mut pairs: Vec<(String, String)> = Vec::new();
        for _ in 0..dice.roll(40) {
            let (k, v) = (dice.text(12), dice.text(24));
            if pairs.iter().all(|p| p.0 != k) {
                pairs.push((k, v));
            }
        }
        let csv = to_csv(&pairs);
        let opts = LoadOptions::default();

        let (arena, entries) = parse_csv(&csv, &opts).expect("generated CSV must parse cleanly");

        let mut buf = Vec::new();
        write_compiled(&mut buf, &arena, &entries, 0);
        let (arena2, entries2, _) = read_compiled(&buf).unwrap();

        assert_eq!(&arena, &arena2);
        assert_eq!(&entries, &entries2);

        let a = Store::from_parts(arena, entries);
        let b = Store::from_parts(arena2, entries2);
        assert_eq!(a.len(), b.len());

        for (k, v) in &pairs {
            let av = a.get(k.as_bytes());
            let bv = b.get(k.as_bytes());
            assert_eq!(av.as_deref(), Some(v.as_bytes()));
            assert_eq!(bv.as_deref(), Some(v.as_bytes()));
        }
        assert!(a.get(b"__definitely_absent__").is_none());
        assert!(b.get(b"__definitely_absent__").is_none());
    }
}
