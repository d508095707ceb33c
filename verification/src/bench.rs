//! A synthetic dataset for benchmarks. Its values look random but are the same in every
//! run, so that runs can be compared.

use crate::text::{
    decimal, hex_char, hex_digit_value, law_a_hex_digit_reads_back, law_a_number_reads_back,
    number_in, push_decimal,
};
use vstd::prelude::*;
use vstd::string::StringExecFns;

verus! {

/// What the first row is scrambled from.
pub const FIRST_SEED: u64 = 0x9E3779B97F4A7C15;

/// The seed that follows another: three shifts, each mixed back in.
pub open spec fn scrambled(seed: u64) -> u64 {
    let a = seed ^ (seed << 13);
    let b = a ^ (a >> 7);
    b ^ (b << 17)
}

/// The seed of a row.
pub open spec fn seed_of_row(i: nat) -> u64
    decreases i,
{
    if i == 0 {
        scrambled(FIRST_SEED)
    } else {
        scrambled(seed_of_row((i - 1) as nat))
    }
}

/// The low digits of a number in hexadecimal, with leading zeros.
pub open spec fn hex(n: nat, digits: nat) -> Seq<char>
    decreases digits,
{
    if digits == 0 {
        Seq::empty()
    } else {
        hex(n / 16, (digits - 1) as nat).push(hex_char(n % 16))
    }
}

/// A row of the dataset, with tabs between its columns.
pub open spec fn row_text(i: nat, seed: u64) -> Seq<char> {
    "key"@ + decimal(i) + "\tvalue-"@ + decimal(i) + "-"@ + hex(seed as nat, 16) + "\n"@
}

fn next_seed(seed: u64) -> (next: u64)
    ensures
        next == scrambled(seed),
{
    let a: u64 = seed ^ (seed << 13);
    let b: u64 = a ^ (a >> 7);
    b ^ (b << 17)
}

/// The text of one hexadecimal digit.
fn hex_digit_text(d: u64) -> (s: &'static str)
    requires
        d < 16,
    ensures
        s@ == seq![hex_char(d as nat)],
{
    proof {
        reveal_strlit("0");
        reveal_strlit("1");
        reveal_strlit("2");
        reveal_strlit("3");
        reveal_strlit("4");
        reveal_strlit("5");
        reveal_strlit("6");
        reveal_strlit("7");
        reveal_strlit("8");
        reveal_strlit("9");
        reveal_strlit("a");
        reveal_strlit("b");
        reveal_strlit("c");
        reveal_strlit("d");
        reveal_strlit("e");
        reveal_strlit("f");
    }
    let s: &'static str = match d {
        0 => "0",
        1 => "1",
        2 => "2",
        3 => "3",
        4 => "4",
        5 => "5",
        6 => "6",
        7 => "7",
        8 => "8",
        9 => "9",
        10 => "a",
        11 => "b",
        12 => "c",
        13 => "d",
        14 => "e",
        _ => "f",
    };
    assert(s@ =~= seq![hex_char(d as nat)]);
    s
}

fn push_hex(out: &mut String, n: u64, digits: u64)
    ensures
        final(out)@ == old(out)@ + hex(n as nat, digits as nat),
    decreases digits,
{
    let ghost before = out@;
    if digits > 0 {
        push_hex(out, n / 16, digits - 1);
        out.append(hex_digit_text(n % 16));
    }
    assert(out@ =~= before + hex(n as nat, digits as nat));
}

/// The dataset, one row after another.
pub struct Rows {
    next: u64,
    seed: u64,
}

impl Rows {
    #[verifier::type_invariant]
    closed spec fn well_formed(self) -> bool {
        self.seed == if self.next == 0 {
            FIRST_SEED
        } else {
            seed_of_row((self.next - 1) as nat)
        }
    }

    /// How many rows have been written.
    pub closed spec fn written(self) -> nat {
        self.next as nat
    }

    /// Before the first row.
    pub fn new() -> (rows: Rows)
        ensures
            rows.written() == 0,
    {
        Rows { next: 0, seed: FIRST_SEED }
    }

    /// Append the next row.
    pub fn push_row(&mut self, out: &mut String)
        requires
            old(self).written() < u64::MAX,
        ensures
            final(self).written() == old(self).written() + 1,
            final(out)@ == old(out)@ + row_text(
                old(self).written(),
                seed_of_row(old(self).written()),
            ),
    {
        proof {
            use_type_invariant(&*self);
        }
        let ghost before = out@;
        let i: u64 = self.next;
        let seed: u64 = next_seed(self.seed);
        *self = Rows { next: i + 1, seed };
        out.append("key");
        push_decimal(out, i);
        out.append("\tvalue-");
        push_decimal(out, i);
        out.append("-");
        push_hex(out, seed, 16);
        out.append("\n");
        assert(out@ =~= before + row_text(i as nat, seed));
    }
}

/// The number that hexadecimal digits stand for, read from left to right.
pub open spec fn hex_number_in(digits: Seq<char>) -> nat
    decreases digits.len(),
{
    if digits.len() == 0 {
        0
    } else {
        16 * hex_number_in(digits.drop_last()) + hex_digit_value(digits.last())
    }
}

/// How many numbers can be written with so many hexadecimal digits.
pub open spec fn hex_numbers(digits: nat) -> nat
    decreases digits,
{
    if digits == 0 {
        1
    } else {
        16 * hex_numbers((digits - 1) as nat)
    }
}

/// A number in hexadecimal has the digits asked for and reads back as itself, where these
/// are enough for it.
pub proof fn law_a_hex_number_reads_back(n: nat, digits: nat)
    requires
        n < hex_numbers(digits),
    ensures
        hex(n, digits).len() == digits,
        hex_number_in(hex(n, digits)) == n,
    decreases digits,
{
    if digits > 0 {
        let fewer = (digits - 1) as nat;
        law_a_hex_number_reads_back(n / 16, fewer);
        law_a_hex_digit_reads_back(n % 16);
        assert(hex(n, digits).drop_last() =~= hex(n / 16, fewer));
    }
}

/// The key of a row holds its number. Its value, behind a tab, holds the number again and
/// the seed in sixteen hexadecimal digits.
pub proof fn law_a_row_holds_its_number_and_its_seed(i: nat, seed: u64)
    ensures
        row_text(i, seed) == "key"@ + decimal(i) + "\tvalue-"@ + decimal(i) + "-"@ + hex(
            seed as nat,
            16,
        ) + "\n"@,
        number_in(decimal(i)) == i,
        hex(seed as nat, 16).len() == 16,
        hex_number_in(hex(seed as nat, 16)) == seed,
{
    reveal_with_fuel(hex_numbers, 17);
    law_a_number_reads_back(i);
    law_a_hex_number_reads_back(seed as nat, 16);
}

/// Each seed is the one before it, shifted by thirteen, back by seven and by seventeen
/// bits, and mixed with itself each time.
pub proof fn law_seeds_are_scrambled(i: nat)
    ensures
        ({
            let x = seed_of_row(i);
            let y = x ^ (x << 13);
            let z = y ^ (y >> 7);
            seed_of_row(i + 1) == z ^ (z << 17)
        }),
        ({
            let x = 0x9E3779B97F4A7C15u64;
            let y = x ^ (x << 13);
            let z = y ^ (y >> 7);
            seed_of_row(0) == z ^ (z << 17)
        }),
{
}

} // verus!
