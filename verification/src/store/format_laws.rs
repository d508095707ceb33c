//! The compiled format byte by byte, and what a store and a load come to.

use crate::store::compiled::{
    decoded, entry_at, has_magic, image, is_readable, is_refused_with,
    law_a_file_is_readable_or_refused_with_one_error, lemma_image_arena, lemma_image_entry,
    lemma_image_header, u32_at, CompiledError,
};
use crate::store::csv_loader::{layout, loaded, packed, problems_of, LoadOptions};
use crate::store::rows::csv_rows;
use crate::store::{
    is_found, loads_to, problem_lines, Entry, LoadFailure, Loaded, Store,
};
use crate::text::{decimal, unlines};
use vstd::prelude::*;

verus! {

/// The number that four bytes stand for, the lowest first.
pub open spec fn number_at(data: Seq<u8>, at: int) -> int {
    data[at] + 256 * data[at + 1] + 65536 * data[at + 2] + 16777216 * data[at + 3]
}

/// `JUSTKV01`.
pub open spec fn starts_with_magic(data: Seq<u8>) -> bool {
    &&& data.len() >= 8
    &&& data[0] == 0x4a
    &&& data[1] == 0x55
    &&& data[2] == 0x53
    &&& data[3] == 0x54
    &&& data[4] == 0x4b
    &&& data[5] == 0x56
    &&& data[6] == 0x30
    &&& data[7] == 0x31
}

proof fn lemma_number_at(data: Seq<u8>, at: int)
    requires
        0 <= at,
        at + 4 <= data.len(),
    ensures
        u32_at(data, at) == number_at(data, at),
{
    reveal(u32_at);
    let b = data.subrange(at, at + 4);
    assert(b[0] == data[at] && b[1] == data[at + 1] && b[2] == data[at + 2] && b[3] == data[at
        + 3]);
}

/// A file is taken for a compiled one exactly where it starts with the eight bytes
/// `JUSTKV01`.
pub proof fn law_compiled_files_start_with_their_magic(data: Seq<u8>)
    ensures
        has_magic(data) <==> starts_with_magic(data),
{
    if data.len() >= 8 {
        let m = data.subrange(0, 8);
        assert(m[0] == data[0] && m[1] == data[1] && m[2] == data[2] && m[3] == data[3] && m[4]
            == data[4] && m[5] == data[5] && m[6] == data[6] && m[7] == data[7]);
        let magic = crate::store::compiled::MAGIC@;
        assert(magic.len() == 8);
        assert(magic[0] == 0x4a && magic[1] == 0x55 && magic[2] == 0x53 && magic[3] == 0x54
            && magic[4] == 0x4b && magic[5] == 0x56 && magic[6] == 0x30 && magic[7] == 0x31);
        if starts_with_magic(data) {
            assert(m =~= magic);
        }
    }
}

/// What a compiled file holds, byte by byte: the flags at 8, the number of entries at 12,
/// the length of the arena at 16, each entry in sixteen bytes from 24 on, and then the
/// arena. All numbers have four bytes, the lowest first.
pub proof fn law_a_compiled_file_is_read_byte_by_byte(data: Seq<u8>)
    requires
        data.len() >= 24,
        data.len() >= 24 + 16 * number_at(data, 12) + number_at(data, 16),
    ensures
        ({
            let (arena, entries, flags) = decoded(data);
            let count = number_at(data, 12);
            let start = 24 + 16 * count;
            &&& flags == number_at(data, 8)
            &&& entries.len() == count
            &&& arena == data.subrange(start, start + number_at(data, 16))
            &&& forall|i: int|
                0 <= i < count ==> {
                    &&& (#[trigger] entries[i]).k_off == number_at(data, 24 + 16 * i)
                    &&& entries[i].k_len == number_at(data, 28 + 16 * i)
                    &&& entries[i].v_off == number_at(data, 32 + 16 * i)
                    &&& entries[i].v_len == number_at(data, 36 + 16 * i)
                }
        }),
{
    lemma_number_at(data, 8);
    lemma_number_at(data, 12);
    lemma_number_at(data, 16);
    let entries = decoded(data).1;
    assert forall|i: int| 0 <= i < number_at(data, 12) implies {
        &&& (#[trigger] entries[i]).k_off == number_at(data, 24 + 16 * i)
        &&& entries[i].k_len == number_at(data, 28 + 16 * i)
        &&& entries[i].v_off == number_at(data, 32 + 16 * i)
        &&& entries[i].v_len == number_at(data, 36 + 16 * i)
    } by {
        lemma_number_at(data, 24 + 16 * i);
        lemma_number_at(data, 28 + 16 * i);
        lemma_number_at(data, 32 + 16 * i);
        lemma_number_at(data, 36 + 16 * i);
        assert(entries[i] == entry_at(data, i));
    }
}

/// Some entry of a compiled file points outside its arena, and the entries before it do
/// not.
pub open spec fn first_stray_entry(data: Seq<u8>, index: int) -> bool {
    let arena_len = number_at(data, 16);
    let strays = |i: int|
        number_at(data, 24 + 16 * i) + number_at(data, 28 + 16 * i) > arena_len || number_at(
            data,
            32 + 16 * i,
        ) + number_at(data, 36 + 16 * i) > arena_len;
    &&& 0 <= index < number_at(data, 12)
    &&& strays(index)
    &&& forall|i: int| 0 <= i < index ==> !#[trigger] strays(i)
}

/// Why a file is refused as a compiled one: with eight bytes or more, for other magic; for
/// bytes that are missing of the magic, the header, the entries or the arena; and else for
/// the first entry that points outside the arena.
pub proof fn law_each_refusal_has_its_reason(data: Seq<u8>, index: usize)
    ensures
        is_refused_with(data, CompiledError::BadMagic) <==> data.len() >= 8
            && !starts_with_magic(data),
        is_refused_with(data, CompiledError::Truncated) <==> data.len() < 8 || (
        starts_with_magic(data) && (data.len() < 24 || data.len() < 24 + 16 * number_at(
            data,
            12,
        ) + number_at(data, 16))),
        is_refused_with(data, CompiledError::OutOfBounds { index }) <==> {
            &&& starts_with_magic(data)
            &&& data.len() >= 24
            &&& data.len() >= 24 + 16 * number_at(data, 12) + number_at(data, 16)
            &&& first_stray_entry(data, index as int)
        },
{
    law_compiled_files_start_with_their_magic(data);
    if data.len() >= 24 {
        lemma_number_at(data, 12);
        lemma_number_at(data, 16);
        if data.len() >= 24 + 16 * number_at(data, 12) + number_at(data, 16) {
            law_a_compiled_file_is_read_byte_by_byte(data);
            let entries = decoded(data).1;
            let arena_len = number_at(data, 16);
            let strays = |i: int|
                number_at(data, 24 + 16 * i) + number_at(data, 28 + 16 * i) > arena_len
                    || number_at(data, 32 + 16 * i) + number_at(data, 36 + 16 * i) > arena_len;
            assert forall|i: int| 0 <= i < number_at(data, 12) implies (#[trigger] strays(i)
                <==> !entry_at(data, i).fits(arena_len)) by {
                assert(entries[i] == entry_at(data, i));
            }
            if is_refused_with(data, CompiledError::OutOfBounds { index }) {
                assert forall|i: int| 0 <= i < index implies !#[trigger] strays(i) by {
                    assert(entry_at(data, i).fits(arena_len));
                }
                assert(strays(index as int));
                assert(first_stray_entry(data, index as int));
            }
            if first_stray_entry(data, index as int) {
                assert forall|i: int| 0 <= i < index implies (#[trigger] entry_at(data, i)).fits(
                    arena_len,
                ) by {
                    assert(!strays(i));
                }
                assert(strays(index as int));
            }
        }
    }
}

/// A compiled file is readable exactly where it starts with the magic, has all the bytes
/// that its header promises, and no entry points outside the arena.
pub proof fn law_a_readable_file_is_whole_and_stays_inside_its_arena(data: Seq<u8>)
    ensures
        is_readable(data) <==> {
            &&& starts_with_magic(data)
            &&& data.len() >= 24
            &&& data.len() >= 24 + 16 * number_at(data, 12) + number_at(data, 16)
            &&& forall|i: int|
                #![trigger number_at(data, 24 + 16 * i)]
                0 <= i < number_at(data, 12) ==> {
                    &&& number_at(data, 24 + 16 * i) + number_at(data, 28 + 16 * i) <= number_at(
                        data,
                        16,
                    )
                    &&& number_at(data, 32 + 16 * i) + number_at(data, 36 + 16 * i) <= number_at(
                        data,
                        16,
                    )
                }
        },
{
    law_compiled_files_start_with_their_magic(data);
    if data.len() >= 24 {
        lemma_number_at(data, 12);
        lemma_number_at(data, 16);
        if data.len() >= 24 + 16 * number_at(data, 12) + number_at(data, 16) {
            law_a_compiled_file_is_read_byte_by_byte(data);
            let entries = decoded(data).1;
            assert forall|i: int| 0 <= i < entries.len() implies ((#[trigger] entries[i]).fits(
                number_at(data, 16),
            ) <==> number_at(data, 24 + 16 * i) + number_at(data, 28 + 16 * i) <= number_at(
                data,
                16,
            ) && number_at(data, 32 + 16 * i) + number_at(data, 36 + 16 * i) <= number_at(
                data,
                16,
            )) by {
            }
            if is_readable(data) {
                assert forall|i: int|
                    #![trigger number_at(data, 24 + 16 * i)]
                    0 <= i < number_at(data, 12) implies number_at(data, 24 + 16 * i) + number_at(
                    data,
                    28 + 16 * i,
                ) <= number_at(data, 16) && number_at(data, 32 + 16 * i) + number_at(
                    data,
                    36 + 16 * i,
                ) <= number_at(data, 16) by {
                    assert(entries[i].fits(number_at(data, 16)));
                }
            }
        }
    }
}

/// An image is laid out byte by byte as it is read: the magic, the flags, the low 32 bits
/// of both lengths, four zero bytes, the entries and the arena, and nothing behind it.
pub proof fn law_an_image_is_laid_out_byte_by_byte(
    arena: Seq<u8>,
    entries: Seq<Entry>,
    flags: u32,
)
    ensures
        ({
            let data = image(arena, entries, flags);
            let start = 24 + 16 * entries.len();
            &&& data.len() == start + arena.len()
            &&& starts_with_magic(data)
            &&& number_at(data, 8) == flags
            &&& number_at(data, 12) == entries.len() % 0x1_0000_0000
            &&& number_at(data, 16) == arena.len() % 0x1_0000_0000
            &&& number_at(data, 20) == 0
            &&& forall|i: int|
                0 <= i < entries.len() ==> {
                    &&& number_at(data, 24 + 16 * i) == (#[trigger] entries[i]).k_off
                    &&& number_at(data, 28 + 16 * i) == entries[i].k_len
                    &&& number_at(data, 32 + 16 * i) == entries[i].v_off
                    &&& number_at(data, 36 + 16 * i) == entries[i].v_len
                }
            &&& data.subrange(start as int, data.len() as int) == arena
        }),
{
    let data = image(arena, entries, flags);
    lemma_image_header(arena, entries, flags);
    lemma_image_arena(arena, entries, flags);
    law_compiled_files_start_with_their_magic(data);
    lemma_number_at(data, 8);
    lemma_number_at(data, 12);
    lemma_number_at(data, 16);
    assert(data[20] == 0 && data[21] == 0 && data[22] == 0 && data[23] == 0);
    assert forall|i: int| 0 <= i < entries.len() implies {
        &&& number_at(data, 24 + 16 * i) == (#[trigger] entries[i]).k_off
        &&& number_at(data, 28 + 16 * i) == entries[i].k_len
        &&& number_at(data, 32 + 16 * i) == entries[i].v_off
        &&& number_at(data, 36 + 16 * i) == entries[i].v_len
    } by {
        lemma_image_entry(arena, entries, flags, i);
        lemma_number_at(data, 24 + 16 * i);
        lemma_number_at(data, 28 + 16 * i);
        lemma_number_at(data, 32 + 16 * i);
        lemma_number_at(data, 36 + 16 * i);
    }
}

/// A lookup finds a value that stands in the arena at the window of an entry, whole, and
/// the entry's own window shows the key; it finds nothing only where no entry shows it.
pub proof fn law_a_value_is_found_whole_under_its_key(
    s: Store,
    key: Seq<u8>,
    found: Option<Seq<u8>>,
)
    requires
        is_found(s, key, found),
    ensures
        found matches Some(value) ==> exists|i: int|
            0 <= i < s.entries().len() && {
                let e = #[trigger] s.entries()[i];
                &&& s.bytes().subrange(e.k_off as int, e.k_off + e.k_len) == key
                &&& s.bytes().subrange(e.v_off as int, e.v_off + e.v_len) == value
            },
        found is None ==> forall|i: int|
            0 <= i < s.entries().len() ==> {
                let e = #[trigger] s.entries()[i];
                s.bytes().subrange(e.k_off as int, e.k_off + e.k_len) != key
            },
{
    let (entries, arena) = (s.entries(), s.bytes());
    match found {
        Some(value) => {
            let i = choose|i: int|
                0 <= i < entries.len() && (#[trigger] entries[i]).key_in(arena) == key
                    && entries[i].value_in(arena) == value;
            let e = entries[i];
            assert(arena.subrange(e.k_off as int, e.k_off + e.k_len) == key);
            assert(arena.subrange(e.v_off as int, e.v_off + e.v_len) == value);
        },
        None => {
            assert forall|i: int| 0 <= i < entries.len() implies {
                let e = #[trigger] entries[i];
                arena.subrange(e.k_off as int, e.k_off + e.k_len) != key
            } by {
                assert(entries[i].key_in(arena) != key);
            }
        },
    }
}

/// A dataset says what kind of file it came from: a compiled one exactly where the bytes
/// start with the magic. A compiled one has the flags of the file, and one from CSV has
/// flag one exactly where binary values were allowed.
pub proof fn law_a_dataset_knows_where_it_came_from(data: Seq<u8>, opts: LoadOptions, l: Loaded)
    requires
        loads_to(data, opts, Ok(l)),
    ensures
        l.format is Compiled <==> starts_with_magic(data),
        starts_with_magic(data) ==> l.flags == number_at(data, 8),
        !starts_with_magic(data) ==> l.flags == (if opts.allow_binary {
            1u32
        } else {
            0
        }),
{
    law_compiled_files_start_with_their_magic(data);
    if has_magic(data) {
        lemma_number_at(data, 8);
    }
}

/// The bytes of a dataset load exactly where nothing is wrong with them, to what they hold;
/// a file with the magic is never read as CSV, nor any other as compiled.
pub proof fn law_bytes_load_as_what_they_are(
    data: Seq<u8>,
    opts: LoadOptions,
    r: Result<Loaded, LoadFailure>,
)
    requires
        loads_to(data, opts, r),
    ensures
        starts_with_magic(data) ==> {
            &&& r is Ok <==> is_readable(data)
            &&& r matches Ok(l) ==> l.store.bytes() == decoded(data).0 && l.store.entries()
                == decoded(data).1
            &&& r is Err ==> r->Err_0 is Compiled
        },
        !starts_with_magic(data) ==> {
            let p = loaded(csv_rows(data, opts.delimiter, opts.has_header), opts.allow_binary);
            &&& r is Ok <==> p.problems.len() == 0
            &&& r matches Ok(l) ==> l.store.bytes() == packed(p.pairs) && l.store.entries()
                == layout(p.pairs)
            &&& r is Err ==> r->Err_0 is Data
            &&& r matches Err(LoadFailure::Data(errors)) ==> problems_of(errors@) == p.problems
        },
{
    law_compiled_files_start_with_their_magic(data);
    if has_magic(data) {
        if let Err(LoadFailure::Compiled(e)) = r {
            law_a_file_is_readable_or_refused_with_one_error(data, e, e);
        }
    }
}

/// Why a load failed, in words: the message of the system as it is, the reason for which
/// a compiled file is refused, or every problem on a line of its own and their number.
pub proof fn law_a_failed_load_says_why(why: LoadFailure)
    ensures
        why matches LoadFailure::Io(message) ==> why.text() == message@,
        why matches LoadFailure::Compiled(e) ==> why.text() == (match e {
            CompiledError::BadMagic => "not a justkv compiled file (bad magic)"@,
            CompiledError::Truncated => "compiled file is truncated"@,
            CompiledError::OutOfBounds { index } => "entry "@ + decimal(index as nat)
                + " points outside the arena"@,
        }),
        why matches LoadFailure::Data(errors) ==> why.text() == unlines(
            Seq::new(errors@.len(), |i: int| errors@[i]@.text()),
        ) + decimal(errors@.len()) + " problem(s) found"@,
{
    if let LoadFailure::Data(errors) = why {
        lemma_problem_lines(errors@);
    }
}

proof fn lemma_problem_lines(errors: Seq<crate::store::csv_loader::DataError>)
    ensures
        problem_lines(problems_of(errors)) == unlines(
            Seq::new(errors.len(), |i: int| errors[i]@.text()),
        ),
    decreases errors.len(),
{
    let all = Seq::new(errors.len(), |i: int| errors[i]@.text());
    if errors.len() > 0 {
        let front = errors.drop_last();
        lemma_problem_lines(front);
        assert(problems_of(errors).drop_last() =~= problems_of(front));
        assert(all.drop_last() =~= Seq::new(front.len(), |i: int| front[i]@.text()));
    }
}

} // verus!
