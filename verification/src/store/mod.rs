//! The store itself: entries, the arena they point into, and lookup.

use crate::store::arena::{as_slice, bytes_if_any, bytes_of, share, slice_of};
use crate::store::compiled::{
    dataset_flags, decoded, flags_for, has_magic, is_compiled, is_readable, is_refused_with,
    read_compiled, CompiledError,
};
use crate::store::csv_loader::{
    layout, loaded, packed, parse_csv, problems_of, DataError, LoadOptions, Problem,
};
use crate::store::rows::{csv_reads_back, csv_rows};
use crate::store::table::{
    filed_entries, hash_bytes, hash_under, key_hash, random_state, EntryTable, TABLE_LIMIT,
};
use crate::text::{decimal, push_len};
use bytes::Bytes;
use foldhash::fast::RandomState;
use vstd::multiset::Multiset;
use vstd::prelude::*;
use vstd::string::StringExecFns;

pub mod arena;
pub mod compiled;
pub mod csv_loader;
pub mod format_laws;
pub mod laws;
pub mod row_laws;
pub mod rows;
pub mod table;

verus! {

/// A key/value pair as a pair of (offset, length) windows into the arena.
/// Fixed 16 bytes, so 1M entries cost 16MB regardless of key/value sizes.
#[derive(Clone, Copy, Debug, PartialEq, Eq, Structural)]
pub struct Entry {
    pub k_off: u32,
    pub k_len: u32,
    pub v_off: u32,
    pub v_len: u32,
}

impl Entry {
    /// Both windows lie inside an arena of `arena_len` bytes.
    pub open spec fn fits(self, arena_len: int) -> bool {
        &&& self.k_off + self.k_len <= arena_len
        &&& self.v_off + self.v_len <= arena_len
    }

    /// The bytes of the key.
    pub open spec fn key_in(self, arena: Seq<u8>) -> Seq<u8> {
        arena.subrange(self.k_off as int, self.k_off + self.k_len)
    }

    /// The bytes of the value.
    pub open spec fn value_in(self, arena: Seq<u8>) -> Seq<u8> {
        arena.subrange(self.v_off as int, self.v_off + self.v_len)
    }

    /// The bytes of the key, read from the arena.
    pub fn key<'a>(&self, arena: &'a [u8]) -> (key: &'a [u8])
        requires
            self.k_off + self.k_len <= arena@.len(),
        ensures
            key@ == self.key_in(arena@),
    {
        let arena_len: usize = arena.len();
        let start: usize = self.k_off as usize;
        let end: usize = start + self.k_len as usize;
        &arena[start..end]
    }
}

/// Every entry's windows lie inside an arena of `arena_len` bytes.
pub open spec fn all_fit(entries: Seq<Entry>, arena_len: int) -> bool {
    forall|i: int| 0 <= i < entries.len() ==> (#[trigger] entries[i]).fits(arena_len)
}

/// What kind of file a dataset came from.
#[derive(Clone, Copy, Debug, PartialEq, Eq, Structural)]
pub enum SourceFormat {
    Csv,
    Compiled,
}

impl SourceFormat {
    pub fn as_str(&self) -> (s: &'static str)
        ensures
            s@ == (match *self {
                SourceFormat::Csv => "csv"@,
                SourceFormat::Compiled => "compiled"@,
            }),
    {
        match self {
            SourceFormat::Csv => "csv",
            SourceFormat::Compiled => "compiled",
        }
    }
}

/// A dataset that is ready to be served.
pub struct Loaded {
    pub store: Store,
    pub format: SourceFormat,
    pub flags: u32,
    pub source: String,
}

/// Why a dataset could not be loaded.
#[derive(Debug)]
pub enum LoadFailure {
    /// The file could not be read, with the message of the system.
    Io(String),
    Data(Vec<DataError>),
    Compiled(CompiledError),
}

/// One line per problem.
pub open spec fn problem_lines(problems: Seq<Problem>) -> Seq<char>
    decreases problems.len(),
{
    if problems.len() == 0 {
        Seq::empty()
    } else {
        problem_lines(problems.drop_last()) + problems.last().text() + "\n"@
    }
}

impl LoadFailure {
    /// The message for people: every problem, where the data is at fault.
    pub open spec fn text(self) -> Seq<char> {
        match self {
            LoadFailure::Io(message) => message@,
            LoadFailure::Compiled(e) => e.text(),
            LoadFailure::Data(errors) => problem_lines(problems_of(errors@)) + decimal(
                errors@.len(),
            ) + " problem(s) found"@,
        }
    }

    /// The message for people: every problem, where the data is at fault.
    pub fn to_string(&self) -> (s: String)
        ensures
            s@ == self.text(),
    {
        match self {
            LoadFailure::Io(message) => {
                let mut s = String::new();
                s.append(message.as_str());
                assert(s@ =~= message@);
                s
            },
            LoadFailure::Compiled(e) => e.to_string(),
            LoadFailure::Data(errors) => {
                let mut s = String::new();
                let ghost problems = problems_of(errors@);
                let mut i: usize = 0;
                while i < errors.len()
                    invariant
                        i <= errors@.len(),
                        problems == problems_of(errors@),
                        s@ == problem_lines(problems.take(i as int)),
                    decreases errors@.len() - i,
                {
                    s.append(errors[i].to_string().as_str());
                    s.append("\n");
                    assert(problems.take(i + 1).drop_last() =~= problems.take(i as int));
                    i += 1;
                }
                assert(problems.take(i as int) =~= problems);
                push_len(&mut s, errors.len());
                s.append(" problem(s) found");
                s
            },
        }
    }
}

/// `r` is what the bytes of a dataset load to, by the magic they start with.
pub open spec fn loads_to(
    data: Seq<u8>,
    opts: LoadOptions,
    r: Result<Loaded, LoadFailure>,
) -> bool {
    if has_magic(data) {
        match r {
            Ok(l) => {
                &&& is_readable(data)
                &&& l.format == SourceFormat::Compiled
                &&& (l.store.bytes(), l.store.entries(), l.flags) == decoded(data)
            },
            Err(LoadFailure::Compiled(e)) => is_refused_with(data, e),
            Err(_) => false,
        }
    } else {
        let p = loaded(csv_rows(data, opts.delimiter, opts.has_header), opts.allow_binary);
        match r {
            Ok(l) => {
                &&& p.problems.len() == 0
                &&& l.format == SourceFormat::Csv
                &&& l.store.bytes() == packed(p.pairs)
                &&& l.store.entries() == layout(p.pairs)
                &&& l.flags == flags_for(opts.allow_binary)
            },
            Err(LoadFailure::Data(errors)) => {
                &&& p.problems.len() > 0
                &&& problems_of(errors@) == p.problems
            },
            Err(_) => false,
        }
    }
}

/// The parts of a dataset, from the bytes of its file. The bytes are released on the way,
/// before a table is built over the parts.
fn read_parts(data: Vec<u8>, opts: &LoadOptions) -> (r: Result<
    (Vec<u8>, Vec<Entry>, SourceFormat, u32),
    LoadFailure,
>)
    ensures
        match r {
            Ok((arena, entries, format, flags)) => {
                let p = loaded(csv_rows(data@, opts.delimiter, opts.has_header), opts.allow_binary);
                &&& all_fit(entries@, arena@.len() as int)
                &&& entries@.len() <= u32::MAX
                &&& if has_magic(data@) {
                    &&& is_readable(data@)
                    &&& format == SourceFormat::Compiled
                    &&& (arena@, entries@, flags) == decoded(data@)
                } else {
                    &&& p.problems.len() == 0
                    &&& format == SourceFormat::Csv
                    &&& arena@ == packed(p.pairs)
                    &&& entries@ == layout(p.pairs)
                    &&& flags == flags_for(opts.allow_binary)
                }
            },
            Err(why) => loads_to(data@, *opts, Err(why)),
        },
        !has_magic(data@) ==> csv_reads_back(data@, opts.delimiter, opts.has_header),
{
    if is_compiled(data.as_slice()) {
        match read_compiled(data.as_slice()) {
            Ok((a, e, f)) => Ok((a, e, SourceFormat::Compiled, f)),
            Err(e) => Err(LoadFailure::Compiled(e)),
        }
    } else {
        match parse_csv(data.as_slice(), opts) {
            Ok((a, e)) => Ok((a, e, SourceFormat::Csv, dataset_flags(opts.allow_binary))),
            Err(errors) => Err(LoadFailure::Data(errors)),
        }
    }
}

/// Load a dataset, choosing the loader by magic bytes so one binary serves
/// both a compiled artifact in production and a raw CSV in development. `data` is what
/// reading the file gave, or the message of the system where it could not be read.
pub fn load(data: Result<Vec<u8>, String>, source: &str, opts: &LoadOptions) -> (r: Result<
    Loaded,
    LoadFailure,
>)
    ensures
        match data {
            Ok(data) => {
                &&& loads_to(data@, *opts, r)
                &&& !has_magic(data@) ==> csv_reads_back(data@, opts.delimiter, opts.has_header)
            },
            Err(message) => r matches Err(LoadFailure::Io(m)) && m@ == message@,
        },
        r matches Ok(l) ==> l.source@ == source@,
{
    let data: Vec<u8> = match data {
        Ok(data) => data,
        Err(message) => {
            return Err(LoadFailure::Io(message));
        },
    };
    match read_parts(data, opts) {
        Ok((arena, entries, format, flags)) => {
            let store = Store::from_parts(arena, entries);
            Ok(Loaded { store, format, flags, source: source.to_owned() })
        },
        Err(why) => Err(why),
    }
}

/// The entries, each with the hash of its key.
pub open spec fn filed_by_key(
    entries: Seq<Entry>,
    arena: Seq<u8>,
    state: RandomState,
) -> Seq<(u64, Entry)> {
    Seq::new(entries.len(), |i: int| (hash_under(state, entries[i].key_in(arena)), entries[i]))
}

/// Some entry of the list has the key.
pub open spec fn has_key(entries: Seq<Entry>, arena: Seq<u8>, key: Seq<u8>) -> bool {
    exists|i: int| 0 <= i < entries.len() && (#[trigger] entries[i]).key_in(arena) == key
}

/// Some entry of the list has the key and the value.
pub open spec fn has_pair(
    entries: Seq<Entry>,
    arena: Seq<u8>,
    key: Seq<u8>,
    value: Seq<u8>,
) -> bool {
    exists|i: int|
        0 <= i < entries.len() && (#[trigger] entries[i]).key_in(arena) == key
            && entries[i].value_in(arena) == value
}

/// `found` is what a lookup of a key in the store comes to.
pub open spec fn is_found(store: Store, key: Seq<u8>, found: Option<Seq<u8>>) -> bool {
    match found {
        Some(value) => has_pair(store.entries(), store.bytes(), key, value),
        None => !has_key(store.entries(), store.bytes(), key),
    }
}

proof fn lemma_filed_counts(
    entries: Seq<Entry>,
    arena: Seq<u8>,
    state: RandomState,
    h: u64,
    e: Entry,
)
    ensures
        filed_by_key(entries, arena, state).to_multiset().count((h, e)) > 0 <==> (exists|i: int|
            0 <= i < entries.len() && #[trigger] entries[i] == e && h == hash_under(
                state,
                e.key_in(arena),
            )),
{
    let filed = filed_by_key(entries, arena, state);
    filed.to_multiset_ensures();
    vstd::seq_lib::to_multiset_contains(filed, (h, e));
    if filed.contains((h, e)) {
        let i = choose|i: int| 0 <= i < filed.len() && filed[i] == (h, e);
        assert(entries[i] == e);
    }
    if exists|i: int|
        0 <= i < entries.len() && #[trigger] entries[i] == e && h == hash_under(
            state,
            e.key_in(arena),
        ) {
        let i = choose|i: int|
            0 <= i < entries.len() && #[trigger] entries[i] == e && h == hash_under(
                state,
                e.key_in(arena),
            );
        assert(filed[i] == (h, e));
    }
}

/// Immutable key/value store. Read-only by construction, so the read path
/// needs no synchronization.
pub struct Store {
    arena: Bytes,
    table: EntryTable,
    hasher: RandomState,
    listed: Ghost<Seq<Entry>>,
}

impl Store {
    #[verifier::type_invariant]
    closed spec fn well_formed(self) -> bool {
        &&& all_fit(self.listed@, bytes_of(self.arena).len() as int)
        &&& filed_entries(self.table) == filed_by_key(
            self.listed@,
            bytes_of(self.arena),
            self.hasher,
        ).to_multiset()
    }

    /// The bytes that the entries point into.
    pub closed spec fn bytes(self) -> Seq<u8> {
        bytes_of(self.arena)
    }

    /// The entries the store was built from.
    pub closed spec fn entries(self) -> Seq<Entry> {
        self.listed@
    }

    /// Build a store from a packed arena and its entry list.
    ///
    /// Entries are taken as validated: their windows lie inside the arena. A key
    /// should occur once; where it occurs more often, a lookup finds one of the entries.
    pub fn from_parts(arena: Vec<u8>, entries: Vec<Entry>) -> (s: Store)
        requires
            all_fit(entries@, arena@.len() as int),
            entries@.len() <= TABLE_LIMIT,
        ensures
            s.bytes() == arena@,
            s.entries() == entries@,
    {
        let hasher = random_state();
        let arena = share(arena);
        let bytes = as_slice(&arena);
        let mut table = EntryTable::with_capacity(entries.len());
        let ghost filed = filed_by_key(entries@, bytes@, hasher);
        let mut i: usize = 0;
        assert(filed.take(0) =~= Seq::empty());
        proof {
            filed.take(0).to_multiset_ensures();
            assert(filed.take(0).to_multiset() =~= Multiset::empty());
        }
        while i < entries.len()
            invariant
                i <= entries@.len(),
                entries@.len() <= TABLE_LIMIT,
                all_fit(entries@, bytes@.len() as int),
                filed == filed_by_key(entries@, bytes@, hasher),
                filed_entries(table) == filed.take(i as int).to_multiset(),
            decreases entries@.len() - i,
        {
            let e = entries[i];
            let h: u64 = key_hash(&e, bytes, &hasher);
            proof {
                let before = filed.take(i as int);
                assert(before =~= filed_by_key(entries@.take(i as int), bytes@, hasher));
                assert forall|h: u64, x: Entry| #[trigger]
                    filed_entries(table).count((h, x)) > 0 implies {
                    &&& x.k_off + x.k_len <= bytes@.len()
                    &&& h == hash_under(hasher, x.key_in(bytes@))
                } by {
                    lemma_filed_counts(entries@.take(i as int), bytes@, hasher, h, x);
                    let j = choose|j: int|
                        0 <= j < i && #[trigger] entries@.take(i as int)[j] == x && h
                            == hash_under(hasher, x.key_in(bytes@));
                    assert(entries@[j].fits(bytes@.len() as int));
                }
                vstd::seq_lib::to_multiset_len(before);
                vstd::seq_lib::to_multiset_build(before, filed[i as int]);
                assert(filed.take(i + 1) =~= before.push(filed[i as int]));
            }
            table.insert_unique(h, e, bytes, &hasher);
            i += 1;
        }
        assert(filed.take(i as int) =~= filed);
        Store { arena, table, hasher, listed: Ghost(entries@) }
    }

    /// Look up a key. The returned `Bytes` points into the shared arena —
    /// this is a refcount increment, not a copy, so value size is free.
    pub fn get(&self, key: &[u8]) -> (r: Option<Bytes>)
        ensures
            is_found(*self, key@, bytes_if_any(r)),
    {
        proof {
            use_type_invariant(self);
        }
        let bytes = as_slice(&self.arena);
        let h: u64 = hash_bytes(&self.hasher, key);
        let ghost listed = self.listed@;
        proof {
            assert forall|h: u64, e: Entry| #[trigger]
                filed_entries(self.table).count((h, e)) > 0 implies e.k_off + e.k_len
                <= bytes@.len() by {
                lemma_filed_counts(listed, bytes@, self.hasher, h, e);
                let j = choose|j: int|
                    0 <= j < listed.len() && #[trigger] listed[j] == e && h == hash_under(
                        self.hasher,
                        e.key_in(bytes@),
                    );
                assert(listed[j].fits(bytes@.len() as int));
            }
        }
        match self.table.find(h, key, bytes) {
            Some(e) => {
                proof {
                    let g = choose|g: u64| #[trigger] filed_entries(self.table).count((g, *e)) > 0;
                    lemma_filed_counts(listed, bytes@, self.hasher, g, *e);
                    let j = choose|j: int|
                        0 <= j < listed.len() && #[trigger] listed[j] == *e && g == hash_under(
                            self.hasher,
                            e.key_in(bytes@),
                        );
                    assert(listed[j].fits(bytes@.len() as int));
                }
                let len: usize = bytes.len();
                let start: usize = e.v_off as usize;
                let end: usize = start + e.v_len as usize;
                Some(slice_of(&self.arena, start, end))
            },
            None => {
                proof {
                    assert forall|i: int| 0 <= i < listed.len() implies (
                    #[trigger] listed[i]).key_in(bytes@) != key@ by {
                        if listed[i].key_in(bytes@) == key@ {
                            lemma_filed_counts(listed, bytes@, self.hasher, h, listed[i]);
                            assert(filed_entries(self.table).count((h, listed[i])) > 0);
                        }
                    }
                }
                None
            },
        }
    }

    /// How many entries the store holds.
    pub fn len(&self) -> (n: usize)
        ensures
            n == self.entries().len(),
    {
        proof {
            use_type_invariant(self);
            vstd::seq_lib::to_multiset_len(
                filed_by_key(self.listed@, bytes_of(self.arena), self.hasher),
            );
        }
        self.table.len()
    }

    pub fn is_empty(&self) -> (r: bool)
        ensures
            r == (self.entries().len() == 0),
    {
        self.len() == 0
    }

    /// How many bytes of keys and values the store holds.
    pub fn arena_len(&self) -> (n: usize)
        ensures
            n == self.bytes().len(),
    {
        as_slice(&self.arena).len()
    }

    pub fn arena(&self) -> (bytes: &[u8])
        ensures
            bytes@ == self.bytes(),
    {
        as_slice(&self.arena)
    }
}

} // verus!
