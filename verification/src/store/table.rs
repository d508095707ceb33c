//! Hash tables over the arena: what the store asks of `hashbrown` and `foldhash`.
//!
//! A `hashbrown::HashTable` knows neither keys nor hashes. Every call brings the hash
//! along, and the way to compare or rehash an item. The two tables here hold entries
//! and positions of entries; the bytes of their keys stay in the arena.

use crate::store::Entry;
use foldhash::fast::RandomState;
use hashbrown::HashTable;
use std::hash::{BuildHasher, Hasher};
use vstd::multiset::Multiset;
use vstd::prelude::*;

verus! {

/// The most entries that a table can be made for on a 64-bit machine: one eighth of the
/// slots stays empty, and with one entry more the slots could not be addressed, so that
/// asking for them panics. On a 32-bit machine the address space is exhausted earlier. Like
/// any allocation that fails, that ends the program; contracts do not speak of it.
pub const TABLE_LIMIT: u64 = 0x0380_0000_0000_0000;

/// `foldhash::fast::RandomState`, a hash function picked at random when it is made.
#[verifier::external_type_specification]
#[verifier::external_body]
pub struct ExRandomState(foldhash::fast::RandomState);

/// The hash that `state` gives to `bytes`, for as long as the state lives. Part of the
/// random choice is made with the state, so two states may well differ on the same bytes;
/// the rest is made once for the whole process.
pub uninterp spec fn hash_under(state: RandomState, bytes: Seq<u8>) -> u64;

/// `RandomState::default`: some hash function. Nothing is known of the choice.
#[verifier::external_body]
pub(crate) fn random_state() -> RandomState {
    RandomState::default()
}

/// A fresh hasher of `state`, fed `bytes` once: `build_hasher`, `write` and `finish`.
/// One state hashes the same bytes to the same number every time.
#[verifier::external_body]
pub(crate) fn hash_bytes(state: &RandomState, bytes: &[u8]) -> (h: u64)
    ensures
        h == hash_under(*state, bytes@),
{
    let mut hasher = state.build_hasher();
    hasher.write(bytes);
    hasher.finish()
}

/// Whether two runs of bytes are the same.
pub fn same_bytes(a: &[u8], b: &[u8]) -> (r: bool)
    ensures
        r == (a@ == b@),
{
    if a.len() != b.len() {
        return false;
    }
    let mut i: usize = 0;
    while i < a.len()
        invariant
            i <= a@.len(),
            a@.len() == b@.len(),
            forall|j: int| 0 <= j < i ==> a@[j] == b@[j],
        decreases a@.len() - i,
    {
        if a[i] != b[i] {
            return false;
        }
        i += 1;
    }
    assert(a@ =~= b@);
    true
}

/// The hash of an entry's key.
pub(crate) fn key_hash(e: &Entry, arena: &[u8], state: &RandomState) -> (h: u64)
    requires
        e.k_off + e.k_len <= arena@.len(),
    ensures
        h == hash_under(*state, e.key_in(arena@)),
{
    hash_bytes(state, e.key(arena))
}

/// Whether an entry's key is `key`.
pub(crate) fn key_is(e: &Entry, arena: &[u8], key: &[u8]) -> (r: bool)
    requires
        e.k_off + e.k_len <= arena@.len(),
    ensures
        r == (e.key_in(arena@) == key@),
{
    same_bytes(e.key(arena), key)
}

/// A `hashbrown::HashTable` of entries. Its contents are [`filed_entries`].
#[verifier::external_body]
pub struct EntryTable {
    items: HashTable<Entry>,
}

/// The items of a table, each with the hash under which it was put in.
pub uninterp spec fn filed_entries(t: EntryTable) -> Multiset<(u64, Entry)>;

/// Every item is filed under the hash of its key.
pub open spec fn entries_filed_by_key(
    filed: Multiset<(u64, Entry)>,
    arena: Seq<u8>,
    state: RandomState,
) -> bool {
    forall|h: u64, e: Entry|
        #[trigger] filed.count((h, e)) > 0 ==> {
            &&& e.k_off + e.k_len <= arena.len()
            &&& h == hash_under(state, e.key_in(arena))
        }
}

impl EntryTable {
    /// `HashTable::with_capacity`: an empty table.
    #[verifier::external_body]
    pub(crate) fn with_capacity(capacity: usize) -> (t: EntryTable)
        requires
            capacity <= TABLE_LIMIT,
        ensures
            filed_entries(t) == Multiset::<(u64, Entry)>::empty(),
    {
        EntryTable { items: HashTable::with_capacity(capacity) }
    }

    /// `HashTable::insert_unique`: one more item, filed under `hash`. When the table
    /// grows it asks for the hash of each item again, so those have to be the ones
    /// under which the items are filed.
    #[verifier::external_body]
    pub(crate) fn insert_unique(&mut self, hash: u64, e: Entry, arena: &[u8], state: &RandomState)
        requires
            filed_entries(*old(self)).len() < TABLE_LIMIT,
            entries_filed_by_key(filed_entries(*old(self)), arena@, *state),
        ensures
            filed_entries(*final(self)) == filed_entries(*old(self)).insert((hash, e)),
    {
        self.items.insert_unique(hash, e, |other| key_hash(other, arena, state));
    }

    /// `HashTable::find`: an item whose key is `key`, and surely one if any such item
    /// is filed under `hash`. Which one, if there are several, is left open.
    #[verifier::external_body]
    pub(crate) fn find(&self, hash: u64, key: &[u8], arena: &[u8]) -> (r: Option<&Entry>)
        requires
            forall|h: u64, e: Entry|
                #[trigger] filed_entries(*self).count((h, e)) > 0 ==> e.k_off + e.k_len
                    <= arena@.len(),
        ensures
            match r {
                Some(e) => {
                    &&& e.key_in(arena@) == key@
                    &&& exists|h: u64| #[trigger] filed_entries(*self).count((h, *e)) > 0
                },
                None => forall|e: Entry|
                    #[trigger] filed_entries(*self).count((hash, e)) > 0 ==> e.key_in(arena@)
                        != key@,
            },
    {
        self.items.find(hash, |e| key_is(e, arena, key))
    }

    /// `HashTable::len`: how many items the table holds.
    #[verifier::external_body]
    pub(crate) fn len(&self) -> (n: usize)
        ensures
            n == filed_entries(*self).len(),
    {
        self.items.len()
    }
}

/// The hash of the key of the entry at a position.
pub(crate) fn key_hash_at(i: &u32, entries: &[Entry], arena: &[u8], state: &RandomState) -> (h: u64)
    requires
        *i < entries@.len(),
        entries@[*i as int].k_off + entries@[*i as int].k_len <= arena@.len(),
    ensures
        h == hash_under(*state, entries@[*i as int].key_in(arena@)),
{
    key_hash(&entries[*i as usize], arena, state)
}

/// Whether the key of the entry at a position is `key`.
pub(crate) fn key_is_at(i: &u32, entries: &[Entry], arena: &[u8], key: &[u8]) -> (r: bool)
    requires
        *i < entries@.len(),
        entries@[*i as int].k_off + entries@[*i as int].k_len <= arena@.len(),
    ensures
        r == (entries@[*i as int].key_in(arena@) == key@),
{
    key_is(&entries[*i as usize], arena, key)
}

/// A `hashbrown::HashTable` of positions in an entry list. Its contents are
/// [`filed_positions`].
#[verifier::external_body]
pub struct PositionTable {
    items: HashTable<u32>,
}

/// The items of a table, each with the hash under which it was put in.
pub uninterp spec fn filed_positions(t: PositionTable) -> Multiset<(u64, u32)>;

/// Every item is the position of an entry that has its key inside the arena.
pub open spec fn positions_in(
    filed: Multiset<(u64, u32)>,
    entries: Seq<Entry>,
    arena_len: int,
) -> bool {
    forall|h: u64, i: u32|
        #[trigger] filed.count((h, i)) > 0 ==> {
            &&& i < entries.len()
            &&& entries[i as int].k_off + entries[i as int].k_len <= arena_len
        }
}

/// Every item is filed under the hash of its entry's key.
pub open spec fn positions_filed_by_key(
    filed: Multiset<(u64, u32)>,
    entries: Seq<Entry>,
    arena: Seq<u8>,
    state: RandomState,
) -> bool {
    forall|h: u64, i: u32|
        #[trigger] filed.count((h, i)) > 0 ==> h == hash_under(
            state,
            entries[i as int].key_in(arena),
        )
}

impl PositionTable {
    /// `HashTable::new`: an empty table.
    #[verifier::external_body]
    pub(crate) fn new() -> (t: PositionTable)
        ensures
            filed_positions(t) == Multiset::<(u64, u32)>::empty(),
    {
        PositionTable { items: HashTable::new() }
    }

    /// `HashTable::insert_unique`: one more item, filed under `hash`. When the table
    /// grows it asks for the hash of each item again, so those have to be the ones
    /// under which the items are filed.
    #[verifier::external_body]
    pub(crate) fn insert_unique(
        &mut self,
        hash: u64,
        i: u32,
        entries: &[Entry],
        arena: &[u8],
        state: &RandomState,
    )
        requires
            filed_positions(*old(self)).len() < TABLE_LIMIT,
            positions_in(filed_positions(*old(self)), entries@, arena@.len() as int),
            positions_filed_by_key(filed_positions(*old(self)), entries@, arena@, *state),
        ensures
            filed_positions(*final(self)) == filed_positions(*old(self)).insert((hash, i)),
    {
        self.items.insert_unique(hash, i, |other| key_hash_at(other, entries, arena, state));
    }

    /// `HashTable::find`: the position of an entry whose key is `key`, and surely one if
    /// any such position is filed under `hash`.
    #[verifier::external_body]
    pub(crate) fn find(&self, hash: u64, key: &[u8], entries: &[Entry], arena: &[u8]) -> (r: Option<
        &u32,
    >)
        requires
            positions_in(filed_positions(*self), entries@, arena@.len() as int),
        ensures
            match r {
                Some(i) => {
                    &&& entries@[*i as int].key_in(arena@) == key@
                    &&& exists|h: u64| #[trigger] filed_positions(*self).count((h, *i)) > 0
                },
                None => forall|i: u32|
                    #[trigger] filed_positions(*self).count((hash, i)) > 0
                        ==> entries@[i as int].key_in(arena@) != key@,
            },
    {
        self.items.find(hash, |i| key_is_at(i, entries, arena, key))
    }
}

} // verus!
