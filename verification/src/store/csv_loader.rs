//! CSV/TSV text to a packed arena plus entry list.

use crate::path::{has_tsv_extension, DataPath, Located};
use crate::store::laws::{
    law_quoted_pairs_are_read_back, law_rows_of_a_dataset_load_as_its_pairs, make_up_a_dataset,
    quoted_text, unplaced,
};
use crate::store::rows::{
    after_header, can_delimit, csv_reads_back, csv_rows, empty_record, line_of, open_rows, read_row,
    record_field, record_len, record_line, rows_left,
};
use crate::store::table::{
    filed_positions, hash_bytes, hash_under, random_state, PositionTable,
};
use crate::store::{all_fit, Entry};
use crate::text::{decimal, push_decimal, push_len};
use foldhash::fast::RandomState;
use vstd::prelude::*;
use vstd::string::StringExecFns;
use vstd::utf8::{decode_utf8, valid_utf8};

verus! {

/// How to read a CSV/TSV dataset.
#[derive(Clone, Debug)]
pub struct LoadOptions {
    pub delimiter: u8,
    pub has_header: bool,
    pub allow_binary: bool,
}

impl Default for LoadOptions {
    fn default() -> (opts: LoadOptions)
        ensures
            opts.delimiter == 0x2c,
            !opts.has_header,
            !opts.allow_binary,
    {
        LoadOptions { delimiter: 0x2c, has_header: false, allow_binary: false }
    }
}

/// The delimiter a dataset is read with unless one is given: tab for `.tsv`, else comma.
pub open spec fn inferred_delimiter(path: Located) -> u8 {
    if has_tsv_extension(path) {
        0x09
    } else {
        0x2c
    }
}

impl LoadOptions {
    /// `.tsv` means tab; everything else means comma. A delimiter given on the command
    /// line takes the place of this one.
    pub fn delimiter_for_path(path: &DataPath) -> (delimiter: u8)
        ensures
            delimiter == inferred_delimiter(path@),
    {
        if path.is_tsv() {
            0x09
        } else {
            0x2c
        }
    }
}

#[derive(Clone, Debug)]
pub enum DataErrorKind {
    WrongColumnCount { found: usize },
    DuplicateKey { key: String, first_line: u64 },
    InvalidUtf8Value,
    Malformed(String),
    TooLarge,
}

/// One problem of a dataset, and the line it is on.
#[derive(Clone, Debug)]
pub struct DataError {
    pub line: u64,
    pub kind: DataErrorKind,
}

/// What a [`DataErrorKind`] says.
pub enum ProblemKind {
    WrongColumnCount { found: nat },
    DuplicateKey { key: Seq<char>, first_line: u64 },
    InvalidUtf8Value,
    Malformed(Seq<char>),
    TooLarge,
}

/// What a [`DataError`] says.
pub struct Problem {
    pub line: u64,
    pub kind: ProblemKind,
}

impl View for DataErrorKind {
    type V = ProblemKind;

    open spec fn view(&self) -> ProblemKind {
        match *self {
            DataErrorKind::WrongColumnCount { found } => ProblemKind::WrongColumnCount {
                found: found as nat,
            },
            DataErrorKind::DuplicateKey { key, first_line } => ProblemKind::DuplicateKey {
                key: key@,
                first_line,
            },
            DataErrorKind::InvalidUtf8Value => ProblemKind::InvalidUtf8Value,
            DataErrorKind::Malformed(message) => ProblemKind::Malformed(message@),
            DataErrorKind::TooLarge => ProblemKind::TooLarge,
        }
    }
}

impl View for DataError {
    type V = Problem;

    open spec fn view(&self) -> Problem {
        Problem { line: self.line, kind: self.kind@ }
    }
}

/// A text between quotes, with escapes where it needs them.
pub uninterp spec fn quoted(text: Seq<char>) -> Seq<char>;

/// The `Debug` form of a `str`. The quoting and escaping rules are std's and are not
/// spelled out here.
#[verifier::external_body]
fn quote(text: &str) -> (s: String)
    ensures
        s@ == quoted(text@),
{
    format!("{text:?}")
}

impl Problem {
    /// The message for people.
    pub open spec fn text(self) -> Seq<char> {
        "line "@ + decimal(self.line as nat) + ": "@ + match self.kind {
            ProblemKind::WrongColumnCount { found } => "expected 2 columns, found "@ + decimal(
                found,
            ),
            ProblemKind::DuplicateKey { key, first_line } => "duplicate key "@ + quoted(key)
                + ", first seen on line "@ + decimal(first_line as nat),
            ProblemKind::InvalidUtf8Value
                => "value is not valid UTF-8 (pass --allow-binary to permit)"@,
            ProblemKind::Malformed(message) => "malformed row: "@ + message,
            ProblemKind::TooLarge => "dataset exceeds the 4 GiB limit imposed by u32 offsets"@,
        }
    }
}

impl DataError {
    /// The message for people.
    pub fn to_string(&self) -> (s: String)
        ensures
            s@ == self@.text(),
    {
        let mut s = String::new();
        s.append("line ");
        push_decimal(&mut s, self.line);
        s.append(": ");
        match &self.kind {
            DataErrorKind::WrongColumnCount { found } => {
                s.append("expected 2 columns, found ");
                push_len(&mut s, *found);
            },
            DataErrorKind::DuplicateKey { key, first_line } => {
                s.append("duplicate key ");
                s.append(quote(key.as_str()).as_str());
                s.append(", first seen on line ");
                push_decimal(&mut s, *first_line);
            },
            DataErrorKind::InvalidUtf8Value => {
                s.append("value is not valid UTF-8 (pass --allow-binary to permit)");
            },
            DataErrorKind::Malformed(message) => {
                s.append("malformed row: ");
                s.append(message.as_str());
            },
            DataErrorKind::TooLarge => {
                s.append("dataset exceeds the 4 GiB limit imposed by u32 offsets");
            },
        }
        assert(s@ =~= self@.text());
        s
    }
}

/// What a list of errors says.
pub open spec fn problems_of(errors: Seq<DataError>) -> Seq<Problem> {
    errors.map_values(|e: DataError| e@)
}

/// One row that made it into the dataset.
pub struct Pair {
    pub line: u64,
    pub key: Seq<u8>,
    pub value: Seq<u8>,
}

/// The pairs laid out one after the other, key before value.
pub open spec fn packed(pairs: Seq<Pair>) -> Seq<u8>
    decreases pairs.len(),
{
    if pairs.len() == 0 {
        Seq::empty()
    } else {
        packed(pairs.drop_last()) + pairs.last().key + pairs.last().value
    }
}

/// The windows of one pair that starts at `at`.
pub open spec fn window_at(at: nat, p: Pair) -> Entry {
    Entry {
        k_off: at as u32,
        k_len: p.key.len() as u32,
        v_off: (at + p.key.len()) as u32,
        v_len: p.value.len() as u32,
    }
}

/// Where [`packed`] puts each pair.
pub open spec fn layout(pairs: Seq<Pair>) -> Seq<Entry>
    decreases pairs.len(),
{
    if pairs.len() == 0 {
        Seq::empty()
    } else {
        layout(pairs.drop_last()).push(window_at(packed(pairs.drop_last()).len(), pairs.last()))
    }
}

/// Text for a run of bytes that need not be UTF-8.
pub uninterp spec fn lossy_text(bytes: Seq<u8>) -> Seq<char>;

/// How a key is shown: as the text it is, where it is UTF-8.
pub open spec fn shown(key: Seq<u8>) -> Seq<char> {
    if valid_utf8(key) {
        decode_utf8(key)
    } else {
        lossy_text(key)
    }
}

/// `String::from_utf8_lossy`: the text itself where the bytes are valid UTF-8. Elsewhere
/// replacement characters stand for what is not; how many is not said.
#[verifier::external_body]
fn text_of(bytes: &[u8]) -> (text: String)
    ensures
        text@ == lossy_text(bytes@),
        valid_utf8(bytes@) ==> text@ == decode_utf8(bytes@),
{
    String::from_utf8_lossy(bytes).into_owned()
}

/// `std::str::from_utf8`: whether the bytes are valid UTF-8.
#[verifier::external_body]
fn is_utf8(bytes: &[u8]) -> (r: bool)
    ensures
        r == valid_utf8(bytes@),
{
    std::str::from_utf8(bytes).is_ok()
}

/// The key of no two pairs is the same.
pub open spec fn distinct_keys(pairs: Seq<Pair>) -> bool {
    forall|i: int, j: int|
        0 <= i < j < pairs.len() ==> (#[trigger] pairs[i]).key != (#[trigger] pairs[j]).key
}

/// The line of the pair with this key, if there is one.
pub open spec fn line_with_key(pairs: Seq<Pair>, key: Seq<u8>) -> Option<u64>
    decreases pairs.len(),
{
    if pairs.len() == 0 {
        None
    } else if pairs.last().key == key {
        Some(pairs.last().line)
    } else {
        line_with_key(pairs.drop_last(), key)
    }
}

/// How far a dataset has been loaded: the rows taken over, the problems found, and
/// whether the rest of the rows is left unread.
pub struct Progress {
    pub pairs: Seq<Pair>,
    pub problems: Seq<Problem>,
    pub stopped: bool,
}

impl Progress {
    /// Nothing loaded yet.
    pub open spec fn start() -> Progress {
        Progress { pairs: Seq::empty(), problems: Seq::empty(), stopped: false }
    }

    /// One problem more.
    pub open spec fn report(self, line: u64, kind: ProblemKind) -> Progress {
        Progress { problems: self.problems.push(Problem { line, kind }), ..self }
    }

    /// No row is read from here on.
    pub open spec fn stop(self) -> Progress {
        Progress { stopped: true, ..self }
    }

    /// One row of two columns.
    pub open spec fn with_pair(self, pair: Pair, allow_binary: bool) -> Progress {
        if let Some(first_line) = line_with_key(self.pairs, pair.key) {
            self.report(
                pair.line,
                ProblemKind::DuplicateKey { key: shown(pair.key), first_line },
            )
        } else if !allow_binary && !valid_utf8(pair.value) {
            self.report(pair.line, ProblemKind::InvalidUtf8Value)
        } else if packed(self.pairs.push(pair)).len() > u32::MAX {
            self.report(pair.line, ProblemKind::TooLarge).stop()
        } else {
            Progress { pairs: self.pairs.push(pair), ..self }
        }
    }

    /// One row, of any number of columns.
    pub open spec fn with_row(self, line: u64, fields: Seq<Seq<u8>>, allow_binary: bool) -> Progress {
        if fields.len() != 2 {
            self.report(line, ProblemKind::WrongColumnCount { found: fields.len() })
        } else {
            self.with_pair(Pair { line, key: fields[0], value: fields[1] }, allow_binary)
        }
    }

    /// A row that could not be read.
    pub open spec fn with_broken_row(self, line: u64, message: Seq<char>) -> Progress {
        self.report(line, ProblemKind::Malformed(message)).stop()
    }
}

/// The line behind `line`.
pub open spec fn line_after(line: u64) -> u64 {
    if line < u64::MAX {
        (line + 1) as u64
    } else {
        0
    }
}

/// The line on which the row behind `rows` is taken to be: the one behind the last row's.
pub open spec fn next_line(rows: Seq<Result<(u64, Seq<Seq<u8>>), Seq<char>>>) -> u64 {
    if rows.len() > 0 && rows.last() is Ok {
        line_after(rows.last()->Ok_0.0)
    } else {
        1
    }
}

/// What loading the rows comes to.
pub open spec fn loaded(
    rows: Seq<Result<(u64, Seq<Seq<u8>>), Seq<char>>>,
    allow_binary: bool,
) -> Progress
    decreases rows.len(),
{
    if rows.len() == 0 {
        Progress::start()
    } else {
        let before = loaded(rows.drop_last(), allow_binary);
        if before.stopped {
            before
        } else {
            match rows.last() {
                Ok((line, fields)) => before.with_row(line, fields, allow_binary),
                Err(message) => before.with_broken_row(next_line(rows.drop_last()), message),
            }
        }
    }
}

pub(crate) proof fn lemma_layout_len(pairs: Seq<Pair>)
    ensures
        layout(pairs).len() == pairs.len(),
    decreases pairs.len(),
{
    if pairs.len() > 0 {
        lemma_layout_len(pairs.drop_last());
    }
}

/// The windows of [`layout`] show the pairs again.
pub(crate) proof fn lemma_layout_at(pairs: Seq<Pair>, i: int)
    requires
        packed(pairs).len() <= u32::MAX,
        0 <= i < pairs.len(),
    ensures
        layout(pairs).len() == pairs.len(),
        layout(pairs)[i].fits(packed(pairs).len() as int),
        layout(pairs)[i].key_in(packed(pairs)) == pairs[i].key,
        layout(pairs)[i].value_in(packed(pairs)) == pairs[i].value,
    decreases pairs.len(),
{
    let rest = pairs.drop_last();
    let last = pairs.last();
    lemma_layout_len(pairs);
    lemma_layout_len(rest);
    let all = packed(pairs);
    let e = layout(pairs)[i];
    if i == pairs.len() - 1 {
        assert(e == window_at(packed(rest).len(), last));
        assert(e.key_in(all) =~= last.key);
        assert(e.value_in(all) =~= last.value);
    } else {
        lemma_layout_at(rest, i);
        assert(e == layout(rest)[i]);
        assert(e.key_in(all) =~= e.key_in(packed(rest)));
        assert(e.value_in(all) =~= e.value_in(packed(rest)));
    }
}

pub(crate) proof fn lemma_layout_fits(pairs: Seq<Pair>)
    requires
        packed(pairs).len() <= u32::MAX,
    ensures
        layout(pairs).len() == pairs.len(),
        all_fit(layout(pairs), packed(pairs).len() as int),
{
    lemma_layout_len(pairs);
    assert forall|i: int| 0 <= i < layout(pairs).len() implies (#[trigger] layout(
        pairs,
    )[i]).fits(packed(pairs).len() as int) by {
        lemma_layout_at(pairs, i);
    }
}

pub(crate) proof fn lemma_line_with_key(pairs: Seq<Pair>, key: Seq<u8>)
    ensures
        line_with_key(pairs, key) is None ==> forall|i: int|
            0 <= i < pairs.len() ==> (#[trigger] pairs[i]).key != key,
        line_with_key(pairs, key) matches Some(line) ==> exists|i: int|
            0 <= i < pairs.len() && (#[trigger] pairs[i]).key == key && pairs[i].line == line,
    decreases pairs.len(),
{
    if pairs.len() > 0 {
        let rest = pairs.drop_last();
        lemma_line_with_key(rest, key);
        if pairs.last().key == key {
            assert(pairs[pairs.len() - 1].key == key);
        } else {
            assert forall|i: int|
                0 <= i < pairs.len() && line_with_key(pairs, key) is None implies (
            #[trigger] pairs[i]).key != key by {
                if i < pairs.len() - 1 {
                    assert(rest[i] == pairs[i]);
                }
            }
            if line_with_key(rest, key) is Some {
                let i = choose|i: int|
                    0 <= i < rest.len() && (#[trigger] rest[i]).key == key && Some(rest[i].line)
                        == line_with_key(rest, key);
                assert(pairs[i] == rest[i]);
            }
        }
    }
}

/// With distinct keys, a key tells the line.
pub(crate) proof fn lemma_line_of_pair(pairs: Seq<Pair>, i: int)
    requires
        distinct_keys(pairs),
        0 <= i < pairs.len(),
    ensures
        line_with_key(pairs, pairs[i].key) == Some(pairs[i].line),
{
    let key = pairs[i].key;
    lemma_line_with_key(pairs, key);
    assert(line_with_key(pairs, key) is Some);
    let j = choose|j: int|
        0 <= j < pairs.len() && (#[trigger] pairs[j]).key == key && Some(pairs[j].line)
            == line_with_key(pairs, key);
    if i < j {
        assert(pairs[i].key != pairs[j].key);
    } else if j < i {
        assert(pairs[j].key != pairs[i].key);
    }
}

/// The pairs whose keys are at most one byte long.
spec fn short(pairs: Seq<Pair>) -> Seq<Pair>
    decreases pairs.len(),
{
    if pairs.len() == 0 {
        Seq::empty()
    } else if pairs.last().key.len() <= 1 {
        short(pairs.drop_last()).push(pairs.last())
    } else {
        short(pairs.drop_last())
    }
}

proof fn lemma_short_is_part(pairs: Seq<Pair>, p: Pair)
    requires
        short(pairs).contains(p),
    ensures
        pairs.contains(p),
        p.key.len() <= 1,
    decreases pairs.len(),
{
    if pairs.len() > 0 {
        let rest = pairs.drop_last();
        if pairs.last().key.len() <= 1 && p == pairs.last() {
            assert(pairs[pairs.len() - 1] == p);
        } else {
            let k = choose|k: int| 0 <= k < short(pairs).len() && short(pairs)[k] == p;
            assert(short(rest)[k] == p);
            lemma_short_is_part(rest, p);
            let j = choose|j: int| 0 <= j < rest.len() && rest[j] == p;
            assert(pairs[j] == p);
        }
    }
}

proof fn lemma_short_distinct(pairs: Seq<Pair>)
    requires
        distinct_keys(pairs),
    ensures
        distinct_keys(short(pairs)),
        packed(pairs).len() + 2 * short(pairs).len() >= 2 * pairs.len(),
    decreases pairs.len(),
{
    if pairs.len() > 0 {
        let rest = pairs.drop_last();
        lemma_short_distinct(rest);
        if pairs.last().key.len() <= 1 {
            let some = short(rest);
            assert forall|i: int, j: int| 0 <= i < j < short(pairs).len() implies (
            #[trigger] short(pairs)[i]).key != (#[trigger] short(pairs)[j]).key by {
                if j == some.len() {
                    assert(some.contains(some[i]));
                    lemma_short_is_part(rest, some[i]);
                    let k = choose|k: int| 0 <= k < rest.len() && rest[k] == some[i];
                    assert(pairs[k].key != pairs[pairs.len() - 1].key);
                }
            }
        }
    }
}

/// There are only 257 keys of at most one byte.
proof fn lemma_short_is_small(pairs: Seq<Pair>)
    requires
        distinct_keys(pairs),
        forall|i: int| 0 <= i < pairs.len() ==> (#[trigger] pairs[i]).key.len() <= 1,
    ensures
        pairs.len() <= 257,
{
    let number = |p: Pair|
        if p.key.len() == 0 {
            0int
        } else {
            p.key[0] + 1
        };
    let numbers = Seq::new(pairs.len(), |i: int| number(pairs[i]));
    assert(numbers.no_duplicates()) by {
        assert forall|i: int, j: int|
            0 <= i < numbers.len() && 0 <= j < numbers.len() && i != j implies numbers[i]
            != numbers[j] by {
            if numbers[i] == numbers[j] {
                assert(pairs[i].key =~= pairs[j].key);
                if i < j {
                    assert(pairs[i].key != pairs[j].key);
                } else {
                    assert(pairs[j].key != pairs[i].key);
                }
            }
        }
    }
    numbers.unique_seq_to_set();
    vstd::set_lib::lemma_int_range(0, 257);
    assert(numbers.to_set().subset_of(vstd::set_lib::set_int_range(0, 257)));
    vstd::set_lib::lemma_len_subset(numbers.to_set(), vstd::set_lib::set_int_range(0, 257));
}

/// Distinct keys need room: what fits the arena cannot overflow a 32-bit count.
pub proof fn law_an_arena_of_distinct_keys_has_countable_entries(pairs: Seq<Pair>)
    requires
        distinct_keys(pairs),
        packed(pairs).len() <= u32::MAX,
    ensures
        layout(pairs).len() == pairs.len(),
        pairs.len() <= u32::MAX,
{
    lemma_layout_len(pairs);
    lemma_short_distinct(pairs);
    assert forall|i: int| 0 <= i < short(pairs).len() implies (#[trigger] short(
        pairs,
    )[i]).key.len() <= 1 by {
        assert(short(pairs).contains(short(pairs)[i]));
        lemma_short_is_part(pairs, short(pairs)[i]);
    }
    lemma_short_is_small(short(pairs));
}

/// `Vec::shrink_to_fit`: gives back spare room and keeps the bytes.
#[verifier::external_body]
fn drop_spare_room(v: &mut Vec<u8>)
    ensures
        final(v)@ == old(v)@,
{
    v.shrink_to_fit()
}

/// The table files the position of every pair, and nothing else, under the hash of the
/// pair's key.
spec fn files_pairs(table: PositionTable, pairs: Seq<Pair>, state: RandomState) -> bool {
    &&& filed_positions(table).len() == pairs.len()
    &&& forall|h: u64, i: u32|
        #[trigger] filed_positions(table).count((h, i)) > 0 <==> {
            &&& i < pairs.len()
            &&& h == hash_under(state, pairs[i as int].key)
        }
}

/// `r` is what a load that came as far as `p` returns: the packed pairs with their
/// windows if there was no problem, and all the problems otherwise.
pub open spec fn outcome(
    r: Result<(Vec<u8>, Vec<Entry>), Vec<DataError>>,
    p: Progress,
) -> bool {
    match r {
        Ok((arena, entries)) => {
            &&& p.problems.len() == 0
            &&& arena@ == packed(p.pairs)
            &&& entries@ == layout(p.pairs)
            &&& arena@.len() <= u32::MAX
            &&& entries@.len() <= u32::MAX
            &&& all_fit(entries@, arena@.len() as int)
        },
        Err(errors) => {
            &&& p.problems.len() > 0
            &&& problems_of(errors@) == p.problems
        },
    }
}

/// `r` is the dataset of the pairs: one entry for each, in order, whose windows show its
/// key and its value, and nothing else in the arena.
pub open spec fn is_dataset_of(
    r: Result<(Vec<u8>, Vec<Entry>), Vec<DataError>>,
    pairs: Seq<(Seq<u8>, Seq<u8>)>,
) -> bool {
    &&& r matches Ok((arena, entries))
    &&& arena@ == packed(unplaced(pairs))
    &&& entries@.len() == pairs.len()
    &&& forall|i: int|
        0 <= i < pairs.len() ==> (#[trigger] entries@[i]).key_in(arena@) == pairs[i].0
            && entries@[i].value_in(arena@) == pairs[i].1
}

/// Builds a dataset row by row.
///
/// Duplicate detection reuses the arena rather than a map of owned keys: copying every
/// key would defeat the point of the packed layout. Positions of entries are indexed
/// instead, and compared against arena slices.
pub struct RowLoader {
    arena: Vec<u8>,
    entries: Vec<Entry>,
    lines: Vec<u64>,
    errors: Vec<DataError>,
    state: RandomState,
    seen: PositionTable,
    allow_binary: bool,
    stopped: bool,
    progress: Ghost<Progress>,
}

impl RowLoader {
    /// What has been loaded so far.
    pub closed spec fn progress(self) -> Progress {
        self.progress@
    }

    /// Whether values may be other than UTF-8.
    pub closed spec fn allows_binary(self) -> bool {
        self.allow_binary
    }

    pub closed spec fn well_formed(self) -> bool {
        let p = self.progress@;
        &&& distinct_keys(p.pairs)
        &&& packed(p.pairs).len() <= u32::MAX
        &&& self.arena@ == packed(p.pairs)
        &&& self.entries@ == layout(p.pairs)
        &&& self.lines@ == Seq::new(p.pairs.len(), |i: int| p.pairs[i].line)
        &&& problems_of(self.errors@) == p.problems
        &&& self.stopped == p.stopped
        &&& files_pairs(self.seen, p.pairs, self.state)
    }

    /// A loader without rows. `capacity` is the room set aside for the arena.
    pub fn new(allow_binary: bool, capacity: usize) -> (l: RowLoader)
        ensures
            l.well_formed(),
            l.allows_binary() == allow_binary,
            l.progress() == Progress::start(),
    {
        let l = RowLoader {
            arena: Vec::with_capacity(capacity),
            entries: Vec::new(),
            lines: Vec::new(),
            errors: Vec::new(),
            state: random_state(),
            seen: PositionTable::new(),
            allow_binary,
            stopped: false,
            progress: Ghost(Progress::start()),
        };
        proof {
            let none = Seq::<Pair>::empty();
            assert(l.arena@ =~= packed(none));
            assert(l.entries@ =~= layout(none));
            assert(l.lines@ =~= Seq::new(none.len(), |i: int| none[i].line));
            assert(problems_of(l.errors@) =~= Seq::empty());
        }
        l
    }

    /// Whether no further row is to be read.
    pub fn is_stopped(&self) -> (r: bool)
        requires
            self.well_formed(),
        ensures
            r == self.progress().stopped,
    {
        self.stopped
    }

    /// The dataset, if no problem was found; every problem, otherwise.
    pub fn finish(self) -> (r: Result<(Vec<u8>, Vec<Entry>), Vec<DataError>>)
        requires
            self.well_formed(),
        ensures
            outcome(r, self.progress()),
    {
        proof {
            let pairs = self.progress@.pairs;
            lemma_layout_fits(pairs);
            law_an_arena_of_distinct_keys_has_countable_entries(pairs);
            assert(self.errors@.len() == self.progress@.problems.len());
        }
        if self.errors.len() == 0 {
            let mut arena = self.arena;
            drop_spare_room(&mut arena);
            Ok((arena, self.entries))
        } else {
            Err(self.errors)
        }
    }

    /// Note a problem.
    fn report(&mut self, line: u64, kind: DataErrorKind)
        requires
            old(self).well_formed(),
        ensures
            final(self).well_formed(),
            final(self).allows_binary() == old(self).allows_binary(),
            final(self).progress() == old(self).progress().report(line, kind@),
    {
        let error = DataError { line, kind };
        let ghost before = self.errors@;
        self.errors.push(error);
        self.progress = Ghost(self.progress@.report(line, kind@));
        assert(problems_of(self.errors@) =~= problems_of(before).push(error@));
    }

    /// Read no further row.
    fn stop(&mut self)
        requires
            old(self).well_formed(),
        ensures
            final(self).well_formed(),
            final(self).allows_binary() == old(self).allows_binary(),
            final(self).progress() == old(self).progress().stop(),
    {
        self.stopped = true;
        self.progress = Ghost(self.progress@.stop());
    }

    /// A row that does not have two columns.
    pub fn push_wrong_columns(&mut self, line: u64, found: usize)
        requires
            old(self).well_formed(),
        ensures
            final(self).well_formed(),
            final(self).allows_binary() == old(self).allows_binary(),
            final(self).progress() == old(self).progress().report(
                line,
                ProblemKind::WrongColumnCount { found: found as nat },
            ),
    {
        self.report(line, DataErrorKind::WrongColumnCount { found });
    }

    /// A row that could not be read, on the line it is taken to be on.
    pub fn push_malformed(&mut self, line: u64, message: String)
        requires
            old(self).well_formed(),
        ensures
            final(self).well_formed(),
            final(self).allows_binary() == old(self).allows_binary(),
            final(self).progress() == old(self).progress().with_broken_row(line, message@),
    {
        self.report(line, DataErrorKind::Malformed(message));
        self.stop();
    }

    /// A row of two columns.
    pub fn push_pair(&mut self, line: u64, key: &[u8], value: &[u8])
        requires
            old(self).well_formed(),
        ensures
            final(self).well_formed(),
            final(self).allows_binary() == old(self).allows_binary(),
            final(self).progress() == old(self).progress().with_pair(
                Pair { line, key: key@, value: value@ },
                old(self).allows_binary(),
            ),
    {
        let ghost pairs = self.progress@.pairs;
        let ghost pair = Pair { line, key: key@, value: value@ };
        proof {
            lemma_layout_fits(pairs);
            lemma_line_with_key(pairs, key@);
            assert forall|i: int| 0 <= i < pairs.len() implies #[trigger] self.entries@[i].key_in(
                self.arena@,
            ) == pairs[i].key by {
                lemma_layout_at(pairs, i);
            }
        }
        let kh: u64 = hash_bytes(&self.state, key);
        if let Some(i) = self.seen.find(kh, key, self.entries.as_slice(), self.arena.as_slice()) {
            let first_line: u64 = self.lines[*i as usize];
            proof {
                lemma_line_of_pair(pairs, *i as int);
            }
            self.report(line, DataErrorKind::DuplicateKey { key: text_of(key), first_line });
            return;
        }
        proof {
            assert forall|i: int| 0 <= i < pairs.len() implies (#[trigger] pairs[i]).key
                != key@ by {
                if pairs[i].key == key@ {
                    law_an_arena_of_distinct_keys_has_countable_entries(pairs);
                    assert(filed_positions(self.seen).count((kh, i as u32)) > 0);
                }
            }
            if line_with_key(pairs, key@) is Some {
                let i = choose|i: int|
                    0 <= i < pairs.len() && (#[trigger] pairs[i]).key == key@ && Some(pairs[i].line)
                        == line_with_key(pairs, key@);
                assert(false);
            }
            assert(pairs.push(pair).drop_last() =~= pairs);
        }
        if !self.allow_binary && !is_utf8(value) {
            self.report(line, DataErrorKind::InvalidUtf8Value);
            return;
        }
        let total: u128 = self.arena.len() as u128 + key.len() as u128 + value.len() as u128;
        if total > u32::MAX as u128 {
            self.report(line, DataErrorKind::TooLarge);
            self.stop();
            return;
        }
        let ghost old_entries = self.entries@;
        let ghost old_arena = self.arena@;
        let ghost old_filed = filed_positions(self.seen);
        let k_off: u32 = self.arena.len() as u32;
        self.arena.extend_from_slice(key);
        assert(self.arena@ =~= old_arena + key@);
        let v_off: u32 = self.arena.len() as u32;
        self.arena.extend_from_slice(value);
        assert(self.arena@ =~= old_arena + key@ + value@);
        proof {
            assert(distinct_keys(pairs.push(pair)));
            law_an_arena_of_distinct_keys_has_countable_entries(pairs.push(pair));
        }
        let idx: u32 = self.entries.len() as u32;
        self.entries.push(
            Entry { k_off, k_len: key.len() as u32, v_off, v_len: value.len() as u32 },
        );
        self.lines.push(line);
        proof {
            let now = pairs.push(pair);
            assert(self.entries@ =~= layout(now));
            lemma_layout_fits(now);
            assert forall|i: int| 0 <= i < now.len() implies #[trigger] self.entries@[i].key_in(
                self.arena@,
            ) == now[i].key by {
                lemma_layout_at(now, i);
            }
        }
        self.seen.insert_unique(
            kh,
            idx,
            self.entries.as_slice(),
            self.arena.as_slice(),
            &self.state,
        );
        self.progress = Ghost(Progress { pairs: pairs.push(pair), ..self.progress@ });
        proof {
            let now = pairs.push(pair);
            assert(self.lines@ =~= Seq::new(now.len(), |i: int| now[i].line));
            assert forall|h: u64, i: u32| #[trigger]
                filed_positions(self.seen).count((h, i)) > 0 <==> {
                    &&& i < now.len()
                    &&& h == hash_under(self.state, now[i as int].key)
                } by {
                if (h, i) == (kh, idx) {
                } else {
                    assert(filed_positions(self.seen).count((h, i)) == old_filed.count((h, i)));
                    if i < pairs.len() {
                        assert(now[i as int] == pairs[i as int]);
                    }
                }
            }
        }
    }
}

/// Once stopped, the rows that follow change nothing.
proof fn lemma_stopped(
    rows: Seq<Result<(u64, Seq<Seq<u8>>), Seq<char>>>,
    n: int,
    allow_binary: bool,
)
    requires
        0 <= n <= rows.len(),
        loaded(rows.take(n), allow_binary).stopped,
    ensures
        loaded(rows, allow_binary) == loaded(rows.take(n), allow_binary),
    decreases rows.len(),
{
    if n == rows.len() {
        assert(rows.take(n) =~= rows);
    } else {
        assert(rows.drop_last().take(n) =~= rows.take(n));
        lemma_stopped(rows.drop_last(), n, allow_binary);
    }
}

/// Parse CSV/TSV into a packed arena plus entry list.
///
/// Returns *every* problem found rather than stopping at the first, because
/// this runs at build time and a caller fixing their data wants the whole list.
///
/// Text that was written row by row is read as these rows. In particular, pairs that were
/// written with every field between quotes come back as they were, whatever bytes they
/// hold.
pub fn parse_csv(data: &[u8], opts: &LoadOptions) -> (r: Result<
    (Vec<u8>, Vec<Entry>),
    Vec<DataError>,
>)
    ensures
        outcome(
            r,
            loaded(csv_rows(data@, opts.delimiter, opts.has_header), opts.allow_binary),
        ),
        csv_reads_back(data@, opts.delimiter, opts.has_header),
        can_delimit(opts.delimiter) ==> forall|pairs: Seq<(Seq<u8>, Seq<u8>)>|
            data@ == #[trigger] quoted_text(pairs, opts.delimiter) && make_up_a_dataset(
                after_header(pairs, opts.has_header),
                opts.allow_binary,
            ) ==> is_dataset_of(r, after_header(pairs, opts.has_header)),
{
    let mut rdr = open_rows(data, opts.delimiter, opts.has_header);
    let mut loader = RowLoader::new(opts.allow_binary, data.len());
    let mut rec = empty_record();
    let ghost rows = csv_rows(data@, opts.delimiter, opts.has_header);
    let ghost mut done: int = 0;
    assert(rows.skip(0) =~= rows);
    loop
        invariant_except_break
            !loader.progress().stopped,
            rows_left(rdr) == rows.skip(done),
            loader.progress() == loaded(rows.take(done), opts.allow_binary),
            line_of(rec) == (if done == 0 {
                None::<u64>
            } else {
                Some(rows[done - 1]->Ok_0.0)
            }),
        invariant
            0 <= done <= rows.len(),
            forall|i: int| 0 <= i < done ==> (#[trigger] rows[i]) is Ok,
            loader.well_formed(),
            loader.allows_binary() == opts.allow_binary,
        ensures
            loader.progress() == loaded(rows, opts.allow_binary),
        decreases rows.len() - done,
    {
        let line_hint: u64 = match record_line(&rec) {
            Some(line) => line.wrapping_add(1),
            None => 1,
        };
        proof {
            assert(line_hint == next_line(rows.take(done)));
            if done < rows.len() {
                assert(rows.take(done + 1).drop_last() =~= rows.take(done));
                assert(rows.take(done + 1).last() == rows[done]);
                assert(rows.skip(done).drop_first() =~= rows.skip(done + 1));
            }
        }
        match read_row(&mut rdr, &mut rec) {
            Ok(true) => {},
            Ok(false) => {
                assert(rows.take(done) =~= rows);
                break ;
            },
            Err(message) => {
                loader.push_malformed(line_hint, message);
                proof {
                    lemma_stopped(rows, done + 1, opts.allow_binary);
                }
                break ;
            },
        }
        let line: u64 = match record_line(&rec) {
            Some(line) => line,
            None => line_hint,
        };
        if record_len(&rec) != 2 {
            loader.push_wrong_columns(line, record_len(&rec));
        } else {
            loader.push_pair(line, record_field(&rec, 0), record_field(&rec, 1));
            if loader.is_stopped() {
                proof {
                    lemma_stopped(rows, done + 1, opts.allow_binary);
                }
                break ;
            }
        }
        proof {
            done = done + 1;
        }
    }
    let r = loader.finish();
    proof {
        if can_delimit(opts.delimiter) {
            assert forall|pairs: Seq<(Seq<u8>, Seq<u8>)>|
                data@ == #[trigger] quoted_text(pairs, opts.delimiter) && make_up_a_dataset(
                    after_header(pairs, opts.has_header),
                    opts.allow_binary,
                ) implies is_dataset_of(r, after_header(pairs, opts.has_header)) by {
                let kept = after_header(pairs, opts.has_header);
                law_quoted_pairs_are_read_back(data@, pairs, opts.delimiter, opts.has_header);
                law_rows_of_a_dataset_load_as_its_pairs(rows, kept, opts.allow_binary);
            }
        }
    }
    r
}

} // verus!
