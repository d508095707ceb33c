//! What the server answers, and what it needs to know for that.

use crate::store::arena::{bytes_if_any, bytes_of, share};
use crate::store::compiled::FLAG_BINARY;
use crate::store::{Loaded, SourceFormat, Store};
use bytes::Bytes;
use vstd::prelude::*;

pub mod handlers;
pub mod laws;
pub mod query;

verus! {

/// The content type of values unless the dataset or the operator says otherwise.
pub const DEFAULT_CONTENT_TYPE: &'static str = "text/plain; charset=utf-8";

/// The content type of a dataset whose values need not be text.
pub const BINARY_CONTENT_TYPE: &'static str = "application/octet-stream";

/// What every request is answered from.
pub struct AppState {
    pub store: Store,
    pub default_value: Option<Bytes>,
    pub content_type: String,
    pub keys: usize,
    pub arena_bytes: usize,
    pub source: String,
    pub format: &'static str,
    pub timing: bool,
}

/// The content type of the values of a dataset with the given flags. One that the
/// operator gives always wins.
pub open spec fn content_type_of(explicit: Option<Seq<char>>, flags: u32) -> Seq<char> {
    match explicit {
        Some(given) => given,
        None => if flags & FLAG_BINARY != 0 {
            BINARY_CONTENT_TYPE@
        } else {
            DEFAULT_CONTENT_TYPE@
        },
    }
}

/// The content type of the values of a dataset with the given flags. One that the
/// operator gives always wins.
pub fn content_type_for(explicit: Option<String>, flags: u32) -> (t: String)
    ensures
        t@ == content_type_of(
            match explicit {
                Some(given) => Some(given@),
                None => None,
            },
            flags,
        ),
{
    match explicit {
        Some(given) => given,
        None => if flags & FLAG_BINARY != 0 {
            BINARY_CONTENT_TYPE.to_owned()
        } else {
            DEFAULT_CONTENT_TYPE.to_owned()
        },
    }
}

impl AppState {
    /// The bytes that stand in for a missing value.
    pub open spec fn default_bytes(self) -> Option<Seq<u8>> {
        bytes_if_any(self.default_value)
    }

    /// Get ready to serve a dataset.
    pub fn for_dataset(
        loaded: Loaded,
        default_value: Option<Vec<u8>>,
        content_type: Option<String>,
        timing: bool,
    ) -> (s: AppState)
        ensures
            s.store.bytes() == loaded.store.bytes(),
            s.store.entries() == loaded.store.entries(),
            s.default_bytes() == (match default_value {
                Some(d) => Some(d@),
                None => None,
            }),
            s.content_type@ == content_type_of(
                match content_type {
                    Some(given) => Some(given@),
                    None => None,
                },
                loaded.flags,
            ),
            s.keys == loaded.store.entries().len(),
            s.arena_bytes == loaded.store.bytes().len(),
            s.source@ == loaded.source@,
            s.format@ == (match loaded.format {
                SourceFormat::Csv => "csv"@,
                SourceFormat::Compiled => "compiled"@,
            }),
            s.timing == timing,
    {
        let keys: usize = loaded.store.len();
        let arena_bytes: usize = loaded.store.arena_len();
        let format: &'static str = loaded.format.as_str();
        let default_value = match default_value {
            Some(d) => Some(share(d)),
            None => None,
        };
        AppState {
            store: loaded.store,
            default_value,
            content_type: content_type_for(content_type, loaded.flags),
            keys,
            arena_bytes,
            source: loaded.source,
            format,
            timing,
        }
    }
}

/// How long to wait after the first failed accept, in milliseconds.
pub const FIRST_BACKOFF_MS: u64 = 1;

/// The longest wait between two accepts, in milliseconds.
pub const LONGEST_BACKOFF_MS: u64 = 256;

/// How long to wait after one more failed accept: twice as long, up to the longest.
pub open spec fn backoff_after(ms: u64) -> u64 {
    if 2 * ms <= LONGEST_BACKOFF_MS {
        (2 * ms) as u64
    } else {
        LONGEST_BACKOFF_MS
    }
}

/// How long to wait after one more failed accept: twice as long, up to the longest.
pub fn next_backoff(ms: u64) -> (next: u64)
    ensures
        next == backoff_after(ms),
{
    if ms <= LONGEST_BACKOFF_MS / 2 {
        ms * 2
    } else {
        LONGEST_BACKOFF_MS
    }
}

/// From the first wait on, waits never shrink and never exceed the longest.
pub proof fn law_waits_grow_to_a_ceiling(ms: u64)
    requires
        FIRST_BACKOFF_MS <= ms <= LONGEST_BACKOFF_MS,
    ensures
        ms <= backoff_after(ms) <= LONGEST_BACKOFF_MS,
        ms < LONGEST_BACKOFF_MS ==> ms < backoff_after(ms),
{
}

/// A content type that is given is the one used. Without one, an odd number of flags, that
/// is one with the binary bit, stands for binary values, and an even one for text.
pub proof fn law_the_content_type_follows_the_flags(given: Seq<char>, flags: u32)
    ensures
        content_type_of(Some(given), flags) == given,
        flags % 2 == 1 ==> content_type_of(None, flags) == "application/octet-stream"@,
        flags % 2 == 0 ==> content_type_of(None, flags) == "text/plain; charset=utf-8"@,
{
    assert(flags & 1 == flags % 2) by (bit_vector);
}

/// A wait is doubled while that is at most 256 milliseconds, and is 256 from there on.
pub proof fn law_waits_double(ms: u64)
    ensures
        ms <= 128 ==> backoff_after(ms) == ms + ms,
        ms > 128 ==> backoff_after(ms) == 256,
        FIRST_BACKOFF_MS == 1,
{
}

/// The default of a state is the bytes of its buffer, all of them.
pub proof fn law_the_default_is_its_bytes(s: AppState)
    ensures
        s.default_value is None <==> s.default_bytes() is None,
        s.default_value matches Some(d) ==> s.default_bytes() == Some(bytes_of(d)),
{
}

} // verus!
