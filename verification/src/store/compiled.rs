//! The compiled dataset format.
//!
//! ```text
//! offset  size          field
//! 0       8             magic = "JUSTKV01"
//! 8       4             flags (bit 0: values are binary, not UTF-8 validated)
//! 12      4             entry_count
//! 16      4             arena_len
//! 20      4             reserved (zero)
//! 24      16*count      entries, 4 x u32 each
//! ...     arena_len     arena bytes
//! ```
//!
//! All integers are little-endian.

use crate::store::{all_fit, Entry};
use crate::text::{decimal, push_len};
use vstd::prelude::*;
use vstd::string::StringExecFns;

verus! {

/// The ASCII bytes of `JUSTKV01`.
pub const MAGIC: [u8; 8] = [0x4a, 0x55, 0x53, 0x54, 0x4b, 0x56, 0x30, 0x31];

pub const HEADER_LEN: usize = 24;

pub const ENTRY_LEN: usize = 16;

/// Values were not UTF-8 validated; the server defaults to octet-stream.
pub const FLAG_BINARY: u32 = 1;

/// The flags of a dataset: whether its values may be other than UTF-8.
pub open spec fn flags_for(allow_binary: bool) -> u32 {
    if allow_binary {
        FLAG_BINARY
    } else {
        0
    }
}

/// The flags of a dataset: whether its values may be other than UTF-8.
pub fn dataset_flags(allow_binary: bool) -> (flags: u32)
    ensures
        flags == flags_for(allow_binary),
{
    if allow_binary {
        FLAG_BINARY
    } else {
        0
    }
}

/// Why an image could not be read.
#[derive(Debug, PartialEq, Eq, Structural)]
pub enum CompiledError {
    BadMagic,
    Truncated,
    OutOfBounds { index: usize },
}

impl CompiledError {
    /// The message for people.
    pub open spec fn text(self) -> Seq<char> {
        match self {
            CompiledError::BadMagic => "not a justkv compiled file (bad magic)"@,
            CompiledError::Truncated => "compiled file is truncated"@,
            CompiledError::OutOfBounds { index } => "entry "@ + decimal(index as nat)
                + " points outside the arena"@,
        }
    }

    /// The message for people.
    pub fn to_string(&self) -> (s: String)
        ensures
            s@ == self.text(),
    {
        let mut s = String::new();
        match self {
            CompiledError::BadMagic => s.append("not a justkv compiled file (bad magic)"),
            CompiledError::Truncated => s.append("compiled file is truncated"),
            CompiledError::OutOfBounds { index } => {
                s.append("entry ");
                push_len(&mut s, *index);
                s.append(" points outside the arena");
            },
        }
        assert(s@ =~= self.text());
        s
    }
}

/// The number whose little-endian bytes are `b[0..4]`.
pub open spec fn le_value(b: Seq<u8>) -> int {
    b[0] + 0x100 * b[1] + 0x1_0000 * b[2] + 0x100_0000 * b[3]
}

/// The four little-endian bytes of `x`.
pub open spec fn le_bytes(x: u32) -> Seq<u8> {
    seq![
        (x % 0x100) as u8,
        (x / 0x100 % 0x100) as u8,
        (x / 0x1_0000 % 0x100) as u8,
        (x / 0x100_0000) as u8,
    ]
}

/// The number read from four bytes of `data` at `at`.
#[verifier::opaque]
pub open spec fn u32_at(data: Seq<u8>, at: int) -> u32 {
    le_value(data.subrange(at, at + 4)) as u32
}

proof fn lemma_le_round_trip(x: u32)
    ensures
        le_bytes(x).len() == 4,
        le_value(le_bytes(x)) == x,
{
}

/// `data` starts with the magic bytes.
pub open spec fn has_magic(data: Seq<u8>) -> bool {
    data.len() >= 8 && data.subrange(0, 8) == MAGIC@
}

/// The image of one entry.
pub open spec fn entry_bytes(e: Entry) -> Seq<u8> {
    le_bytes(e.k_off) + le_bytes(e.k_len) + le_bytes(e.v_off) + le_bytes(e.v_len)
}

/// The images of all entries, one after the other.
pub open spec fn entries_bytes(entries: Seq<Entry>) -> Seq<u8>
    decreases entries.len(),
{
    if entries.len() == 0 {
        Seq::empty()
    } else {
        entries_bytes(entries.drop_last()) + entry_bytes(entries.last())
    }
}

/// A count as the header holds it: its low 32 bits.
pub open spec fn low32(n: nat) -> u32 {
    (n % 0x1_0000_0000) as u32
}

/// The 24 bytes before the entries.
pub open spec fn header_bytes(count: nat, arena_len: nat, flags: u32) -> Seq<u8> {
    MAGIC@ + le_bytes(flags) + le_bytes(low32(count)) + le_bytes(low32(arena_len)) + le_bytes(0)
}

/// The whole image of a dataset.
pub open spec fn image(arena: Seq<u8>, entries: Seq<Entry>, flags: u32) -> Seq<u8> {
    header_bytes(entries.len(), arena.len(), flags) + entries_bytes(entries) + arena
}

/// Where the entries of `data` end: right behind the count that the header states.
pub open spec fn entries_end(data: Seq<u8>) -> int {
    HEADER_LEN + u32_at(data, 12) * ENTRY_LEN
}

/// Where the image in `data` ends.
pub open spec fn image_end(data: Seq<u8>) -> int {
    entries_end(data) + u32_at(data, 16)
}

/// `data` has the magic, a full header, and all the bytes that the header promises.
pub open spec fn is_whole(data: Seq<u8>) -> bool {
    has_magic(data) && data.len() >= HEADER_LEN && data.len() >= image_end(data)
}

/// The `i`th entry of the image in `data`.
pub open spec fn entry_at(data: Seq<u8>, i: int) -> Entry {
    let o = HEADER_LEN + i * ENTRY_LEN;
    Entry {
        k_off: u32_at(data, o),
        k_len: u32_at(data, o + 4),
        v_off: u32_at(data, o + 8),
        v_len: u32_at(data, o + 12),
    }
}

/// The arena, the entries and the flags that `data` holds where it is whole.
pub open spec fn decoded(data: Seq<u8>) -> (Seq<u8>, Seq<Entry>, u32) {
    (
        data.subrange(entries_end(data), image_end(data)),
        Seq::new(u32_at(data, 12) as nat, |i: int| entry_at(data, i)),
        u32_at(data, 8),
    )
}

/// `data` is whole and none of its entries points outside its arena.
pub open spec fn is_readable(data: Seq<u8>) -> bool {
    is_whole(data) && all_fit(decoded(data).1, u32_at(data, 16) as int)
}

/// `e` is what is wrong with `data`. A file too short for the magic counts as truncated;
/// of several entries that point outside the arena the first is named.
pub open spec fn is_refused_with(data: Seq<u8>, e: CompiledError) -> bool {
    match e {
        CompiledError::BadMagic => data.len() >= 8 && !has_magic(data),
        CompiledError::Truncated => data.len() < 8 || has_magic(data) && !is_whole(data),
        CompiledError::OutOfBounds { index } => {
            &&& is_whole(data)
            &&& index < u32_at(data, 12)
            &&& !entry_at(data, index as int).fits(u32_at(data, 16) as int)
            &&& forall|i: int|
                0 <= i < index ==> (#[trigger] entry_at(data, i)).fits(u32_at(data, 16) as int)
        },
    }
}

/// The format keeps its first eight bytes for itself: a file starts with them exactly
/// when it is taken for an image.
pub fn is_compiled(data: &[u8]) -> (r: bool)
    ensures
        r == has_magic(data@),
{
    if data.len() < 8 {
        return false;
    }
    let mut i: usize = 0;
    while i < 8
        invariant
            i <= 8,
            data@.len() >= 8,
            forall|j: int| 0 <= j < i ==> data@[j] == MAGIC@[j],
        decreases 8 - i,
    {
        if data[i] != MAGIC[i] {
            assert(data@.subrange(0, 8)[i as int] != MAGIC@[i as int]);
            return false;
        }
        i += 1;
    }
    assert(data@.subrange(0, 8) =~= MAGIC@);
    true
}

fn le_u32(b: &[u8]) -> (x: u32)
    requires
        b@.len() == 4,
    ensures
        x == le_value(b@),
{
    b[0] as u32 + 0x100 * b[1] as u32 + 0x1_0000 * b[2] as u32 + 0x100_0000 * b[3] as u32
}

/// Read the four bytes at `at`.
fn read_u32(data: &[u8], at: usize) -> (x: u32)
    requires
        at + 4 <= data@.len(),
    ensures
        x == u32_at(data@, at as int),
{
    let len: usize = data.len();
    proof {
        reveal(u32_at);
    }
    le_u32(&data[at..at + 4])
}

/// Append the four little-endian bytes of `x`.
fn push_u32(w: &mut Vec<u8>, x: u32)
    ensures
        final(w)@ == old(w)@ + le_bytes(x),
{
    w.push((x % 0x100) as u8);
    w.push((x / 0x100 % 0x100) as u8);
    w.push((x / 0x1_0000 % 0x100) as u8);
    w.push((x / 0x100_0000) as u8);
    assert(w@ =~= old(w)@ + le_bytes(x));
}

/// Append `bytes`.
fn push_bytes(w: &mut Vec<u8>, bytes: &[u8])
    ensures
        final(w)@ == old(w)@ + bytes@,
{
    w.extend_from_slice(bytes);
    assert(w@ =~= old(w)@ + bytes@);
}

/// The low 32 bits of a length.
fn len32(n: usize) -> (x: u32)
    ensures
        x == low32(n as nat),
{
    (n as u64 % 0x1_0000_0000) as u32
}

/// Append the image of a dataset to `w`.
///
/// The header holds the low 32 bits of each length, so an image can be read back
/// only when both lengths fit.
pub fn write_compiled(w: &mut Vec<u8>, arena: &[u8], entries: &[Entry], flags: u32)
    ensures
        final(w)@ == old(w)@ + image(arena@, entries@, flags),
{
    let ghost start = w@;
    push_bytes(w, &MAGIC);
    push_u32(w, flags);
    push_u32(w, len32(entries.len()));
    push_u32(w, len32(arena.len()));
    push_u32(w, 0);
    let ghost header = header_bytes(entries@.len(), arena@.len(), flags);
    assert(w@ =~= start + header);
    let mut i: usize = 0;
    while i < entries.len()
        invariant
            i <= entries@.len(),
            w@ == start + header + entries_bytes(entries@.take(i as int)),
        decreases entries@.len() - i,
    {
        let e = entries[i];
        let ghost before = w@;
        push_u32(w, e.k_off);
        push_u32(w, e.k_len);
        push_u32(w, e.v_off);
        push_u32(w, e.v_len);
        proof {
            let next = entries@.take(i + 1);
            assert(next.drop_last() =~= entries@.take(i as int));
            assert(w@ =~= before + entry_bytes(e));
            assert(w@ =~= start + header + entries_bytes(next));
        }
        i += 1;
    }
    assert(entries@.take(i as int) =~= entries@);
    push_bytes(w, arena);
    assert(w@ =~= start + image(arena@, entries@, flags));
}

/// Read the compiled format. Integers are decoded byte by byte rather than
/// reinterpreted from the buffer, which sidesteps both alignment and
/// endianness hazards. Entry bounds are validated because a corrupt or
/// hand-edited file must not produce out-of-range slicing later.
pub fn read_compiled(data: &[u8]) -> (r: Result<(Vec<u8>, Vec<Entry>, u32), CompiledError>)
    ensures
        match r {
            Ok((arena, entries, flags)) => {
                &&& is_readable(data@)
                &&& (arena@, entries@, flags) == decoded(data@)
                &&& all_fit(entries@, arena@.len() as int)
            },
            Err(e) => is_refused_with(data@, e),
        },
{
    if !is_compiled(data) {
        return Err(
            if data.len() < 8 {
                CompiledError::Truncated
            } else {
                CompiledError::BadMagic
            },
        );
    }
    if data.len() < HEADER_LEN {
        return Err(CompiledError::Truncated);
    }
    let flags: u32 = read_u32(data, 8);
    let count: usize = read_u32(data, 12) as usize;
    let arena_len: usize = read_u32(data, 16) as usize;

    let entries_len: usize = match count.checked_mul(ENTRY_LEN) {
        Some(n) => n,
        None => { return Err(CompiledError::Truncated); },
    };
    let entries_stop: usize = match HEADER_LEN.checked_add(entries_len) {
        Some(n) => n,
        None => { return Err(CompiledError::Truncated); },
    };
    let total: usize = match entries_stop.checked_add(arena_len) {
        Some(n) => n,
        None => { return Err(CompiledError::Truncated); },
    };
    if data.len() < total {
        return Err(CompiledError::Truncated);
    }
    let mut entries: Vec<Entry> = Vec::with_capacity(count);
    let mut i: usize = 0;
    while i < count
        invariant
            i <= count,
            is_whole(data@),
            count == u32_at(data@, 12),
            arena_len == u32_at(data@, 16),
            total == image_end(data@),
            total <= data@.len(),
            entries@ == Seq::new(i as nat, |j: int| entry_at(data@, j)),
            all_fit(entries@, arena_len as int),
        decreases count - i,
    {
        let o: usize = HEADER_LEN + i * ENTRY_LEN;
        let e = Entry {
            k_off: read_u32(data, o),
            k_len: read_u32(data, o + 4),
            v_off: read_u32(data, o + 8),
            v_len: read_u32(data, o + 12),
        };
        assert(e == entry_at(data@, i as int));
        let k_end: u64 = e.k_off as u64 + e.k_len as u64;
        let v_end: u64 = e.v_off as u64 + e.v_len as u64;
        if k_end > arena_len as u64 || v_end > arena_len as u64 {
            assert forall|j: int| 0 <= j < i implies (#[trigger] entry_at(data@, j)).fits(
                arena_len as int,
            ) by {
                assert(entries@[j] == entry_at(data@, j));
            }
            return Err(CompiledError::OutOfBounds { index: i });
        }
        entries.push(e);
        i += 1;
        assert(entries@ =~= Seq::new(i as nat, |j: int| entry_at(data@, j)));
    }
    let mut arena: Vec<u8> = Vec::with_capacity(arena_len);
    push_bytes(&mut arena, &data[entries_stop..total]);
    assert(arena@ =~= data@.subrange(entries_end(data@), image_end(data@)));
    Ok((arena, entries, flags))
}

proof fn lemma_entries_bytes_len(entries: Seq<Entry>)
    ensures
        entries_bytes(entries).len() == 16 * entries.len(),
    decreases entries.len(),
{
    if entries.len() > 0 {
        lemma_entries_bytes_len(entries.drop_last());
    }
}

proof fn lemma_entries_bytes_at(entries: Seq<Entry>, i: int)
    requires
        0 <= i < entries.len(),
    ensures
        entries_bytes(entries).subrange(16 * i, 16 * i + 16) == entry_bytes(entries[i]),
    decreases entries.len(),
{
    let all = entries_bytes(entries);
    let rest = entries_bytes(entries.drop_last());
    lemma_entries_bytes_len(entries);
    lemma_entries_bytes_len(entries.drop_last());
    if i == entries.len() - 1 {
        assert(all.subrange(16 * i, 16 * i + 16) =~= entry_bytes(entries[i]));
    } else {
        lemma_entries_bytes_at(entries.drop_last(), i);
        assert(all.subrange(16 * i, 16 * i + 16) =~= rest.subrange(16 * i, 16 * i + 16));
    }
}

/// The fields of a header are what was written into it.
pub(crate) proof fn lemma_image_header(arena: Seq<u8>, entries: Seq<Entry>, flags: u32)
    ensures
        ({
            let data = image(arena, entries, flags);
            &&& data.len() == 24 + 16 * entries.len() + arena.len()
            &&& has_magic(data)
            &&& u32_at(data, 8) == flags
            &&& u32_at(data, 12) == low32(entries.len())
            &&& u32_at(data, 16) == low32(arena.len())
        }),
{
    reveal(u32_at);
    let data = image(arena, entries, flags);
    lemma_entries_bytes_len(entries);
    lemma_le_round_trip(flags);
    lemma_le_round_trip(low32(entries.len()));
    lemma_le_round_trip(low32(arena.len()));
    assert(data.subrange(0, 8) =~= MAGIC@);
    assert(data.subrange(8, 12) =~= le_bytes(flags));
    assert(data.subrange(12, 16) =~= le_bytes(low32(entries.len())));
    assert(data.subrange(16, 20) =~= le_bytes(low32(arena.len())));
}

pub(crate) proof fn lemma_image_entry(arena: Seq<u8>, entries: Seq<Entry>, flags: u32, i: int)
    requires
        0 <= i < entries.len(),
    ensures
        entry_at(image(arena, entries, flags), i) == entries[i],
{
    reveal(u32_at);
    let data = image(arena, entries, flags);
    let e = entries[i];
    let o = 24 + 16 * i;
    lemma_entries_bytes_len(entries);
    lemma_entries_bytes_at(entries, i);
    let one = entry_bytes(e);
    assert(data.subrange(o, o + 16) =~= entries_bytes(entries).subrange(16 * i, 16 * i + 16));
    lemma_le_round_trip(e.k_off);
    lemma_le_round_trip(e.k_len);
    lemma_le_round_trip(e.v_off);
    lemma_le_round_trip(e.v_len);
    assert(data.subrange(o, o + 4) =~= one.subrange(0, 4));
    assert(one.subrange(0, 4) =~= le_bytes(e.k_off));
    assert(data.subrange(o + 4, o + 8) =~= one.subrange(4, 8));
    assert(one.subrange(4, 8) =~= le_bytes(e.k_len));
    assert(data.subrange(o + 8, o + 12) =~= one.subrange(8, 12));
    assert(one.subrange(8, 12) =~= le_bytes(e.v_off));
    assert(data.subrange(o + 12, o + 16) =~= one.subrange(12, 16));
    assert(one.subrange(12, 16) =~= le_bytes(e.v_len));
}

proof fn lemma_image_entries(arena: Seq<u8>, entries: Seq<Entry>, flags: u32)
    ensures
        Seq::new(entries.len(), |i: int| entry_at(image(arena, entries, flags), i)) == entries,
{
    let data = image(arena, entries, flags);
    let read = Seq::new(entries.len(), |i: int| entry_at(data, i));
    assert forall|i: int| 0 <= i < entries.len() implies #[trigger] read[i] == entries[i] by {
        lemma_image_entry(arena, entries, flags, i);
    }
    assert(read =~= entries);
}

pub(crate) proof fn lemma_image_arena(arena: Seq<u8>, entries: Seq<Entry>, flags: u32)
    ensures
        image(arena, entries, flags).subrange(
            (24 + 16 * entries.len()) as int,
            (24 + 16 * entries.len() + arena.len()) as int,
        ) == arena,
{
    let data = image(arena, entries, flags);
    let at = (24 + 16 * entries.len()) as int;
    lemma_entries_bytes_len(entries);
    assert(header_bytes(entries.len(), arena.len(), flags).len() == 24);
    assert(data.subrange(at, at + arena.len()) =~= arena);
}

proof fn lemma_decoded(data: Seq<u8>, arena: Seq<u8>, entries: Seq<Entry>, flags: u32)
    requires
        has_magic(data),
        data.len() == 24 + 16 * entries.len() + arena.len(),
        u32_at(data, 8) == flags,
        u32_at(data, 12) == entries.len(),
        u32_at(data, 16) == arena.len(),
        Seq::new(entries.len(), |i: int| entry_at(data, i)) == entries,
        data.subrange(
            (24 + 16 * entries.len()) as int,
            (24 + 16 * entries.len() + arena.len()) as int,
        ) == arena,
        all_fit(entries, arena.len() as int),
    ensures
        is_readable(data),
        decoded(data) == (arena, entries, flags),
{
}

/// Reading an image gives back the arena, the entries and the flags it was written from.
///
/// The counts of the format are 32 bits wide, so both lengths have to fit them.
pub proof fn law_read_gives_back_what_was_written(arena: Seq<u8>, entries: Seq<Entry>, flags: u32)
    requires
        arena.len() <= u32::MAX,
        entries.len() <= u32::MAX,
        all_fit(entries, arena.len() as int),
    ensures
        is_readable(image(arena, entries, flags)),
        decoded(image(arena, entries, flags)) == (arena, entries, flags),
{
    let data = image(arena, entries, flags);
    lemma_image_header(arena, entries, flags);
    lemma_image_entries(arena, entries, flags);
    lemma_image_arena(arena, entries, flags);
    lemma_decoded(data, arena, entries, flags);
}

/// The first of the first `n` entries that points outside the arena, if any does.
proof fn first_outside(data: Seq<u8>, n: u32) -> (first: Option<u32>)
    ensures
        match first {
            Some(index) => {
                &&& index < n
                &&& !entry_at(data, index as int).fits(u32_at(data, 16) as int)
                &&& forall|i: int|
                    0 <= i < index ==> (#[trigger] entry_at(data, i)).fits(u32_at(data, 16) as int)
            },
            None => forall|i: int|
                0 <= i < n ==> (#[trigger] entry_at(data, i)).fits(u32_at(data, 16) as int),
        },
    decreases n,
{
    if n == 0 {
        None
    } else {
        let last = (n - 1) as u32;
        match first_outside(data, last) {
            Some(index) => Some(index),
            None => if entry_at(data, last as int).fits(u32_at(data, 16) as int) {
                None
            } else {
                Some(last)
            },
        }
    }
}

/// Every file is either readable or refused, with exactly one error.
pub proof fn law_a_file_is_readable_or_refused_with_one_error(
    data: Seq<u8>,
    d: CompiledError,
    e: CompiledError,
)
    ensures
        !is_readable(data) ==> exists|why: CompiledError| is_refused_with(data, why),
        is_refused_with(data, e) ==> !is_readable(data),
        is_refused_with(data, d) && is_refused_with(data, e) ==> d == e,
{
    if !is_readable(data) {
        if data.len() < 8 || has_magic(data) && !is_whole(data) {
            assert(is_refused_with(data, CompiledError::Truncated));
        } else if !has_magic(data) {
            assert(is_refused_with(data, CompiledError::BadMagic));
        } else {
            let first = first_outside(data, u32_at(data, 12));
            assert(first is Some);
            assert(is_refused_with(
                data,
                CompiledError::OutOfBounds { index: (first->0) as usize },
            ));
        }
    }
    if is_refused_with(data, e) {
        if let CompiledError::OutOfBounds { index } = e {
            assert(decoded(data).1[index as int] == entry_at(data, index as int));
        }
    }
    if is_refused_with(data, d) && is_refused_with(data, e) {
        if let (
            CompiledError::OutOfBounds { index: i },
            CompiledError::OutOfBounds { index: j },
        ) = (d, e) {
            assert(!(i < j));
            assert(!(j < i));
        }
    }
}

/// What is written is recognised by its magic, whatever the dataset.
pub proof fn law_written_images_have_the_magic(arena: Seq<u8>, entries: Seq<Entry>, flags: u32)
    ensures
        has_magic(image(arena, entries, flags)),
{
    lemma_image_header(arena, entries, flags);
}

proof fn lemma_u32_at_kept(data: Seq<u8>, kept: int, at: int)
    requires
        0 <= at,
        at + 4 <= kept <= data.len(),
    ensures
        u32_at(data.take(kept), at) == u32_at(data, at),
{
    reveal(u32_at);
    assert(data.take(kept).subrange(at, at + 4) =~= data.subrange(at, at + 4));
}

proof fn lemma_cut(data: Seq<u8>, kept: nat)
    requires
        data.len() == image_end(data),
        kept < data.len(),
    ensures
        !is_whole(data.take(kept as int)),
{
    if kept >= 24 {
        lemma_u32_at_kept(data, kept as int, 12);
        lemma_u32_at_kept(data, kept as int, 16);
    }
}

/// An image cut short anywhere is not whole, so it is never read as a smaller dataset.
pub proof fn law_a_cut_image_is_refused(
    arena: Seq<u8>,
    entries: Seq<Entry>,
    flags: u32,
    kept: nat,
)
    requires
        arena.len() <= u32::MAX,
        entries.len() <= u32::MAX,
        kept < image(arena, entries, flags).len(),
    ensures
        !is_whole(image(arena, entries, flags).take(kept as int)),
{
    lemma_image_header(arena, entries, flags);
    lemma_cut(image(arena, entries, flags), kept);
}

} // verus!
