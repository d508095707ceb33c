//! The key in a query string.

use vstd::prelude::*;
use vstd::utf8::encode_utf8;

verus! {

/// How many bytes come before the first `b`; all of them where there is none.
pub open spec fn before_first(s: Seq<u8>, b: u8) -> nat
    decreases s.len(),
{
    if s.len() == 0 || s[0] == b {
        0
    } else {
        1 + before_first(s.skip(1), b)
    }
}

/// The value of a hexadecimal digit in either case.
pub open spec fn hex_value(b: u8) -> Option<u8> {
    if 0x30 <= b <= 0x39 {
        Some((b - 0x30) as u8)
    } else if 0x41 <= b <= 0x46 {
        Some((b - 0x41 + 10) as u8)
    } else if 0x61 <= b <= 0x66 {
        Some((b - 0x61 + 10) as u8)
    } else {
        None
    }
}

/// The bytes with each `%` and two hexadecimal digits replaced by the byte they stand
/// for. A `%` that is not followed by two such digits stands for itself.
pub open spec fn percent_decoded(s: Seq<u8>) -> Seq<u8>
    decreases s.len(),
{
    if s.len() == 0 {
        Seq::empty()
    } else if s[0] == 0x25 && s.len() >= 3 && hex_value(s[1]) is Some && hex_value(s[2]) is Some {
        seq![(hex_value(s[1])->0 * 16 + hex_value(s[2])->0) as u8] + percent_decoded(s.skip(3))
    } else {
        seq![s[0]] + percent_decoded(s.skip(1))
    }
}

/// The bytes with a space for each `+`.
pub open spec fn plus_decoded(s: Seq<u8>) -> Seq<u8> {
    s.map_values(
        |b: u8|
            if b == 0x2b {
                0x20
            } else {
                b
            },
    )
}

/// What stands before the first `=` of a parameter.
pub open spec fn name_of(parameter: Seq<u8>) -> Seq<u8> {
    parameter.take(before_first(parameter, 0x3d) as int)
}

/// What stands behind the first `=` of a parameter; nothing where there is none.
pub open spec fn value_of(parameter: Seq<u8>) -> Seq<u8> {
    let at = before_first(parameter, 0x3d) as int;
    if at < parameter.len() {
        parameter.skip(at + 1)
    } else {
        Seq::empty()
    }
}

/// The decoded value of the first parameter that is named `k`.
pub open spec fn key_in(query: Seq<u8>) -> Option<Seq<u8>>
    decreases query.len(),
{
    let end = before_first(query, 0x26) as int;
    let parameter = query.take(end);
    if name_of(parameter) == seq![0x6bu8] {
        Some(percent_decoded(plus_decoded(value_of(parameter))))
    } else if end >= query.len() {
        None
    } else {
        key_in(query.skip(end + 1))
    }
}

/// [`before_first`] is a position in the bytes or their end; no byte before it is `b`,
/// and the one at it is.
pub proof fn lemma_before_first(s: Seq<u8>, b: u8)
    ensures
        0 <= before_first(s, b) <= s.len(),
        before_first(s, b) < s.len() ==> s[before_first(s, b) as int] == b,
        forall|i: int| 0 <= i < before_first(s, b) ==> s[i] != b,
    decreases s.len(),
{
    if s.len() > 0 && s[0] != b {
        let rest = s.skip(1);
        lemma_before_first(rest, b);
        assert forall|i: int| 0 <= i < before_first(s, b) implies s[i] != b by {
            if i > 0 {
                assert(s[i] == rest[i - 1]);
            }
        }
    }
}

/// A position whose byte is `b`, or the end, with no `b` before it, is [`before_first`].
proof fn lemma_is_before_first(s: Seq<u8>, b: u8, at: int)
    requires
        0 <= at <= s.len(),
        at < s.len() ==> s[at] == b,
        forall|i: int| 0 <= i < at ==> s[i] != b,
    ensures
        before_first(s, b) == at,
{
    lemma_before_first(s, b);
}

/// The position of the first `b`, or the length.
fn find_byte(s: &[u8], b: u8) -> (at: usize)
    ensures
        at == before_first(s@, b),
        at <= s@.len(),
{
    let n: usize = s.len();
    let mut i: usize = 0;
    while i < n && s[i] != b
        invariant
            i <= n,
            n == s@.len(),
            forall|j: int| 0 <= j < i ==> s@[j] != b,
        decreases n - i,
    {
        i += 1;
    }
    proof {
        lemma_is_before_first(s@, b, i as int);
    }
    i
}

/// `percent_encoding::percent_decode`, collected: each `%` with two hexadecimal digits
/// becomes the byte they stand for, and every other byte stays.
#[verifier::external_body]
fn percent_decode(bytes: &[u8]) -> (r: Vec<u8>)
    ensures
        r@ == percent_decoded(bytes@),
{
    percent_encoding::percent_decode(bytes).collect()
}

/// The bytes with a space for each `+`.
fn plus_decode(bytes: &[u8]) -> (r: Vec<u8>)
    ensures
        r@ == plus_decoded(bytes@),
{
    let n: usize = bytes.len();
    let mut r: Vec<u8> = Vec::new();
    let mut i: usize = 0;
    while i < n
        invariant
            i <= n,
            n == bytes@.len(),
            r@ == plus_decoded(bytes@.take(i as int)),
        decreases n - i,
    {
        let b: u8 = bytes[i];
        if b == 0x2b {
            r.push(0x20);
        } else {
            r.push(b);
        }
        i += 1;
        assert(r@ =~= plus_decoded(bytes@.take(i as int)));
    }
    assert(bytes@.take(i as int) =~= bytes@);
    r
}

/// Pull `k` out of the raw query string and percent-decode it to bytes.
///
/// Done by hand rather than with a typed extractor because keys are bytes,
/// not necessarily UTF-8, and a `String` would lose some of them.
pub fn key_from_query(q: Option<&str>) -> (key: Option<Vec<u8>>)
    ensures
        match (q, key) {
            (None, k) => k is None,
            (Some(q), Some(k)) => key_in(encode_utf8(q@)) == Some(k@),
            (Some(q), None) => key_in(encode_utf8(q@)) is None,
        },
{
    let text: &str = match q {
        Some(text) => text,
        None => {
            return None;
        },
    };
    let mut rest: &[u8] = text.as_bytes();
    loop
        invariant
            q == Some(text),
            key_in(rest@) == key_in(encode_utf8(text@)),
        decreases rest@.len(),
    {
        let n: usize = rest.len();
        let end: usize = find_byte(rest, 0x26);
        let parameter: &[u8] = &rest[0..end];
        assert(parameter@ =~= rest@.take(end as int));
        let at: usize = find_byte(parameter, 0x3d);
        assert(name_of(parameter@) =~= parameter@.take(at as int));
        if at == 1 && parameter[0] == 0x6b {
            assert(name_of(parameter@) =~= seq![0x6bu8]);
            let from: usize = if at < end {
                at + 1
            } else {
                end
            };
            let value: &[u8] = &parameter[from..end];
            assert(value@ =~= value_of(parameter@));
            let plain: Vec<u8> = plus_decode(value);
            return Some(percent_decode(plain.as_slice()));
        }
        proof {
            if name_of(parameter@) == seq![0x6bu8] {
                assert(name_of(parameter@).len() == 1);
                assert(name_of(parameter@)[0] == 0x6b);
                assert(false);
            }
        }
        if end >= n {
            return None;
        }
        let next: &[u8] = &rest[end + 1..n];
        assert(next@ =~= rest@.skip(end + 1));
        rest = next;
    }
}

/// The digits `0` to `9` and `A` to `F`.
pub open spec fn hex_digit(v: u8) -> u8 {
    if v < 10 {
        (0x30 + v) as u8
    } else {
        (0x41 + v - 10) as u8
    }
}

/// Every byte as `%` and two hexadecimal digits.
pub open spec fn percent_encoded(key: Seq<u8>) -> Seq<u8>
    decreases key.len(),
{
    if key.len() == 0 {
        Seq::empty()
    } else {
        seq![0x25, hex_digit(key[0] / 16), hex_digit(key[0] % 16)] + percent_encoded(key.skip(1))
    }
}

proof fn lemma_percent_encoded(key: Seq<u8>)
    ensures
        percent_decoded(percent_encoded(key)) == key,
        forall|i: int|
            0 <= i < percent_encoded(key).len() ==> {
                let b = #[trigger] percent_encoded(key)[i];
                b == 0x25 || 0x30 <= b <= 0x39 || 0x41 <= b <= 0x46
            },
    decreases key.len(),
{
    if key.len() > 0 {
        let rest = key.skip(1);
        let s = percent_encoded(key);
        lemma_percent_encoded(rest);
        let b = key[0];
        assert(s[0] == 0x25 && s[1] == hex_digit(b / 16) && s[2] == hex_digit(b % 16));
        assert(s.skip(3) =~= percent_encoded(rest));
        assert(hex_value(s[1]) == Some((b / 16) as u8));
        assert(hex_value(s[2]) == Some((b % 16) as u8));
        assert(b / 16 * 16 + b % 16 == b);
        assert(seq![b] + rest =~= key);
        assert forall|i: int| 0 <= i < s.len() implies {
            let c = #[trigger] s[i];
            c == 0x25 || 0x30 <= c <= 0x39 || 0x41 <= c <= 0x46
        } by {
            if i >= 3 {
                assert(s[i] == percent_encoded(rest)[i - 3]);
            }
        }
    }
}

/// Every key can be asked for, whatever its bytes: `k=` and the key percent-encoded,
/// alone or before further parameters.
pub proof fn law_every_key_can_be_asked_for(key: Seq<u8>, more: Seq<u8>)
    requires
        more.len() > 0 ==> more[0] == 0x26,
    ensures
        key_in(seq![0x6b, 0x3d] + percent_encoded(key) + more) == Some(key),
{
    let value = percent_encoded(key);
    let parameter = seq![0x6bu8, 0x3d] + value;
    let query = parameter + more;
    lemma_percent_encoded(key);
    assert forall|i: int| 0 <= i < parameter.len() implies query[i] != 0x26 by {
        if i >= 2 {
            assert(query[i] == value[i - 2]);
        }
    }
    lemma_is_before_first(query, 0x26, parameter.len() as int);
    assert(query.take(parameter.len() as int) =~= parameter);
    lemma_is_before_first(parameter, 0x3d, 1);
    assert(name_of(parameter) =~= seq![0x6bu8]);
    assert(value_of(parameter) =~= value);
    assert(plus_decoded(value) =~= value);
}

/// `k=` and a bare `k` ask for the empty key; they are not the same as no `k`.
pub proof fn law_k_without_a_value_is_the_empty_key(more: Seq<u8>)
    requires
        more.len() > 0 ==> more[0] == 0x26,
    ensures
        key_in(seq![0x6b, 0x3d] + more) == Some(Seq::<u8>::empty()),
        key_in(seq![0x6b] + more) == Some(Seq::<u8>::empty()),
{
    law_every_key_can_be_asked_for(Seq::empty(), more);
    assert(seq![0x6bu8, 0x3d] + percent_encoded(Seq::empty()) + more =~= seq![0x6bu8, 0x3d] + more);
    let query = seq![0x6bu8] + more;
    lemma_is_before_first(query, 0x26, 1);
    assert(query.take(1) =~= seq![0x6bu8]);
    lemma_is_before_first(seq![0x6bu8], 0x3d, 1);
    assert(name_of(seq![0x6bu8]) =~= seq![0x6bu8]);
    assert(plus_decoded(Seq::empty()) =~= Seq::empty());
}

/// A parameter with another name is passed over.
pub proof fn law_other_parameters_are_passed_over(parameter: Seq<u8>, query: Seq<u8>)
    requires
        !parameter.contains(0x26),
        name_of(parameter) != seq![0x6bu8],
    ensures
        key_in(parameter) is None,
        key_in(parameter + seq![0x26] + query) == key_in(query),
{
    assert forall|i: int| 0 <= i < parameter.len() implies parameter[i] != 0x26 by {
        assert(parameter.contains(parameter[i]));
    }
    let n = parameter.len() as int;
    lemma_is_before_first(parameter, 0x26, n);
    assert(parameter.take(n) =~= parameter);
    let whole = parameter + seq![0x26u8] + query;
    lemma_is_before_first(whole, 0x26, n);
    assert(whole.take(n) =~= parameter);
    assert(whole.skip(n + 1) =~= query);
}

/// The byte is a hexadecimal digit, of which letters may be in either case.
pub open spec fn is_hex_digit(b: u8) -> bool {
    48 <= b <= 57 || 65 <= b <= 70 || 97 <= b <= 102
}

/// What a hexadecimal digit counts for.
pub open spec fn hex_digit_worth(b: u8) -> int {
    if b <= 57 {
        b - 48
    } else if b <= 70 {
        b - 55
    } else {
        b - 87
    }
}

/// The query `k=` and a value.
pub open spec fn asking_for(value: Seq<u8>) -> Seq<u8> {
    seq![107u8, 61] + value
}

proof fn lemma_asking_for(value: Seq<u8>, more: Seq<u8>)
    requires
        !value.contains(38),
        more.len() > 0 ==> more[0] == 38,
    ensures
        key_in(asking_for(value) + more) == Some(percent_decoded(plus_decoded(value))),
        key_in(asking_for(value)) == Some(percent_decoded(plus_decoded(value))),
{
    let parameter = asking_for(value);
    let query = parameter + more;
    assert forall|i: int| 0 <= i < parameter.len() implies parameter[i] != 0x26 by {
        if i >= 2 {
            assert(value.contains(value[i - 2]));
        }
    }
    lemma_is_before_first(query, 0x26, parameter.len() as int);
    lemma_is_before_first(parameter, 0x26, parameter.len() as int);
    assert(query.take(parameter.len() as int) =~= parameter);
    assert(parameter.take(parameter.len() as int) =~= parameter);
    lemma_is_before_first(parameter, 0x3d, 1);
    assert(name_of(parameter) =~= seq![0x6bu8]);
    assert(value_of(parameter) =~= value);
}

/// A key is decoded from left to right. Whatever follows, `%` and two hexadecimal digits
/// stand for the byte of that number, `+` for a space, a `%` without two such digits for
/// itself, and so does any other byte. Nothing is left out, cut or added: an empty value
/// is the empty key.
pub proof fn law_a_key_is_decoded_from_left_to_right(value: Seq<u8>)
    requires
        !value.contains(38),
    ensures
        value.len() == 0 ==> key_in(asking_for(value)) == Some(Seq::<u8>::empty()),
        value.len() > 0 ==> {
            let escaped = value.len() >= 3 && value[0] == 37 && is_hex_digit(value[1])
                && is_hex_digit(value[2]);
            let rest = if escaped {
                value.skip(3)
            } else {
                value.skip(1)
            };
            let first = if escaped {
                16 * hex_digit_worth(value[1]) + hex_digit_worth(value[2])
            } else if value[0] == 43 {
                32
            } else {
                value[0] as int
            };
            &&& key_in(asking_for(value)) matches Some(key)
            &&& key_in(asking_for(rest)) matches Some(tail)
            &&& key.len() == 1 + tail.len()
            &&& key[0] == first
            &&& key.skip(1) == tail
        },
{
    let none = Seq::<u8>::empty();
    lemma_asking_for(value, none);
    let plain = plus_decoded(value);
    if value.len() == 0 {
        assert(plain =~= Seq::empty());
    } else {
        let n: int = if value.len() >= 3 && value[0] == 37 && is_hex_digit(value[1])
            && is_hex_digit(value[2]) {
            3
        } else {
            1
        };
        let rest = value.skip(n);
        assert forall|i: int| 0 <= i < rest.len() implies rest[i] != 38 by {
            assert(value.contains(value[i + n]));
        }
        lemma_asking_for(rest, none);
        assert(plus_decoded(rest) =~= plain.skip(n));
        let key = percent_decoded(plain);
        assert(key.skip(1) =~= percent_decoded(plain.skip(n)));
    }
}

/// A key may be asked for as it is: a value without `&`, `%` and `+` is the key, byte for
/// byte, alone or before further parameters.
pub proof fn law_a_plain_value_is_the_key(value: Seq<u8>, more: Seq<u8>)
    requires
        !value.contains(38),
        !value.contains(37),
        !value.contains(43),
        more.len() > 0 ==> more[0] == 38,
    ensures
        key_in(seq![107u8, 61] + value + more) == Some(value),
        key_in(seq![107u8, 61] + value) == Some(value),
{
    lemma_asking_for(value, more);
    assert(plus_decoded(value) =~= value) by {
        assert forall|i: int| 0 <= i < value.len() implies value[i] != 43 by {
            assert(value.contains(value[i]));
        }
    }
    lemma_plain_is_kept(value);
}

proof fn lemma_plain_is_kept(value: Seq<u8>)
    requires
        !value.contains(37),
    ensures
        percent_decoded(value) == value,
    decreases value.len(),
{
    if value.len() > 0 {
        let rest = value.skip(1);
        assert(value.contains(value[0]));
        assert forall|i: int| 0 <= i < rest.len() implies rest[i] != 37 by {
            assert(value.contains(value[i + 1]));
        }
        lemma_plain_is_kept(rest);
        assert(seq![value[0]] + rest =~= value);
    } else {
        assert(percent_decoded(value) =~= value);
    }
}

/// A key of which some bytes are escaped, as `%` and two hexadecimal digits, and the others
/// stand as they are.
pub open spec fn escaped_in_part(key: Seq<u8>, escaped: Seq<bool>) -> Seq<u8>
    decreases key.len(),
{
    if key.len() == 0 {
        Seq::empty()
    } else if escaped[0] {
        seq![37u8, hex_digit(key[0] / 16), hex_digit(key[0] % 16)] + escaped_in_part(
            key.skip(1),
            escaped.skip(1),
        )
    } else {
        seq![key[0]] + escaped_in_part(key.skip(1), escaped.skip(1))
    }
}

proof fn lemma_escaped_in_part(key: Seq<u8>, escaped: Seq<bool>)
    requires
        escaped.len() == key.len(),
        forall|i: int|
            0 <= i < key.len() && !escaped[i] ==> (#[trigger] key[i]) != 37 && key[i] != 38
                && key[i] != 43,
    ensures
        percent_decoded(escaped_in_part(key, escaped)) == key,
        !escaped_in_part(key, escaped).contains(38),
        !escaped_in_part(key, escaped).contains(43),
    decreases key.len(),
{
    let s = escaped_in_part(key, escaped);
    if key.len() > 0 {
        let (rest, flags) = (key.skip(1), escaped.skip(1));
        let tail = escaped_in_part(rest, flags);
        assert forall|i: int| 0 <= i < rest.len() && !flags[i] implies (#[trigger] rest[i]) != 37
            && rest[i] != 38 && rest[i] != 43 by {
            assert(rest[i] == key[i + 1] && flags[i] == escaped[i + 1]);
        }
        lemma_escaped_in_part(rest, flags);
        let b = key[0];
        let n: int = if escaped[0] {
            3
        } else {
            1
        };
        assert(s.skip(n) =~= tail);
        if escaped[0] {
            assert(hex_value(s[1]) == Some((b / 16) as u8));
            assert(hex_value(s[2]) == Some((b % 16) as u8));
            assert(b / 16 * 16 + b % 16 == b);
        }
        assert(seq![b] + rest =~= key);
        assert forall|i: int| 0 <= i < s.len() implies s[i] != 38 && s[i] != 43 by {
            if i >= n {
                assert(tail.contains(s.skip(n)[i - n]));
            }
        }
    } else {
        assert(percent_decoded(s) =~= key);
    }
}

/// Any bytes of a key may be escaped and any but `%`, `&` and `+` may stand as they are:
/// every such mix asks for the same key, alone or before further parameters.
pub proof fn law_a_key_may_be_escaped_in_part(key: Seq<u8>, escaped: Seq<bool>, more: Seq<u8>)
    requires
        escaped.len() == key.len(),
        forall|i: int|
            0 <= i < key.len() && !escaped[i] ==> (#[trigger] key[i]) != 37 && key[i] != 38
                && key[i] != 43,
        more.len() > 0 ==> more[0] == 38,
    ensures
        key_in(seq![107u8, 61] + escaped_in_part(key, escaped) + more) == Some(key),
        key_in(seq![107u8, 61] + escaped_in_part(key, escaped)) == Some(key),
{
    let value = escaped_in_part(key, escaped);
    lemma_escaped_in_part(key, escaped);
    lemma_asking_for(value, more);
    assert(plus_decoded(value) =~= value) by {
        assert forall|i: int| 0 <= i < value.len() implies value[i] != 43 by {
            assert(value.contains(value[i]));
        }
    }
}

/// Only the first `k` counts: what stands behind its `&` makes no difference.
pub proof fn law_the_first_k_counts(value: Seq<u8>, more: Seq<u8>)
    requires
        !value.contains(38),
    ensures
        key_in(asking_for(value) + seq![38u8] + more) == key_in(asking_for(value)),
{
    lemma_asking_for(value, seq![38u8] + more);
    assert(asking_for(value) + seq![38u8] + more =~= asking_for(value) + (seq![38u8] + more));
}

/// A parameter that is neither `k` nor starts with `k=` is passed over, wherever it
/// stands, and a query of nothing else asks for no key.
pub proof fn law_only_k_is_taken_for_the_key(parameter: Seq<u8>, query: Seq<u8>)
    requires
        !parameter.contains(38),
        parameter != seq![107u8],
        !(parameter.len() >= 2 && parameter[0] == 107 && parameter[1] == 61),
    ensures
        key_in(parameter) is None,
        key_in(parameter + seq![38u8] + query) == key_in(query),
{
    let name = name_of(parameter);
    lemma_before_first(parameter, 0x3d);
    if name == seq![0x6bu8] {
        assert(name.len() == 1 && name[0] == 0x6b);
        assert(parameter[0] == 0x6b);
        if parameter.len() == 1 {
            assert(parameter =~= seq![107u8]);
        }
    }
    law_other_parameters_are_passed_over(parameter, query);
}

} // verus!
