//! What one row more does to a load, for every kind of row and whatever came before it.

use crate::store::csv_loader::{
    layout, lemma_layout_len, lemma_line_of_pair, lemma_line_with_key, line_with_key, loaded,
    lossy_text, outcome, packed, problems_of, quoted, DataError, DataErrorKind, Pair, Problem,
    ProblemKind, Progress,
};
use crate::store::laws::law_loaded_pairs_are_distinct_and_fit;
use crate::store::rows::{all_rows, csv_rows};
use crate::store::Entry;
use crate::text::decimal;
use vstd::prelude::*;
use vstd::utf8::{decode_utf8, valid_utf8};

verus! {

proof fn lemma_row_more(
    rows: Seq<Result<(u64, Seq<Seq<u8>>), Seq<char>>>,
    row: Result<(u64, Seq<Seq<u8>>), Seq<char>>,
)
    ensures
        rows.push(row).drop_last() == rows,
        rows.push(row).last() == row,
{
    assert(rows.push(row).drop_last() =~= rows);
}

/// Without rows there is nothing to take over and nothing to report.
pub proof fn law_no_rows_make_an_empty_dataset(allow_binary: bool)
    ensures
        ({
            let p = loaded(Seq::empty(), allow_binary);
            p.pairs.len() == 0 && p.problems.len() == 0 && !p.stopped
        }),
        packed(Seq::empty()).len() == 0,
        layout(Seq::empty()).len() == 0,
{
}

/// Once a load has stopped, no row changes anything.
pub proof fn law_nothing_follows_a_stop(
    rows: Seq<Result<(u64, Seq<Seq<u8>>), Seq<char>>>,
    row: Result<(u64, Seq<Seq<u8>>), Seq<char>>,
    allow_binary: bool,
)
    requires
        loaded(rows, allow_binary).stopped,
    ensures
        loaded(rows.push(row), allow_binary) == loaded(rows, allow_binary),
{
    lemma_row_more(rows, row);
}

/// A row that could not be read is reported with its message, on the line behind the last
/// row's, which goes round at 64 bits, and ends the load.
pub proof fn law_a_broken_row_ends_the_load(
    rows: Seq<Result<(u64, Seq<Seq<u8>>), Seq<char>>>,
    message: Seq<char>,
    allow_binary: bool,
)
    requires
        !loaded(rows, allow_binary).stopped,
    ensures
        ({
            let before = loaded(rows, allow_binary);
            let after = loaded(rows.push(Err(message)), allow_binary);
            let problem = after.problems.last();
            &&& after.stopped
            &&& after.pairs == before.pairs
            &&& after.problems == before.problems.push(problem)
            &&& problem.kind == ProblemKind::Malformed(message)
            &&& rows.len() == 0 ==> problem.line == 1
            &&& rows.len() > 0 && rows.last() is Ok && rows.last()->Ok_0.0 < u64::MAX
                ==> problem.line == rows.last()->Ok_0.0 + 1
            &&& rows.len() > 0 && rows.last() is Ok && rows.last()->Ok_0.0 == u64::MAX
                ==> problem.line == 0
        }),
{
    lemma_row_more(rows, Err(message));
}

/// A row of other than two columns is reported on its own line, with the number of columns
/// it has, and the load goes on.
pub proof fn law_a_row_of_other_than_two_columns_is_reported(
    rows: Seq<Result<(u64, Seq<Seq<u8>>), Seq<char>>>,
    line: u64,
    fields: Seq<Seq<u8>>,
    allow_binary: bool,
)
    requires
        !loaded(rows, allow_binary).stopped,
        fields.len() != 2,
    ensures
        ({
            let before = loaded(rows, allow_binary);
            let after = loaded(rows.push(Ok((line, fields))), allow_binary);
            &&& !after.stopped
            &&& after.pairs == before.pairs
            &&& after.problems == before.problems.push(
                Problem { line, kind: ProblemKind::WrongColumnCount { found: fields.len() } },
            )
        }),
{
    lemma_row_more(rows, Ok((line, fields)));
}

/// A row whose key a row before it has is reported on its own line, whatever its value is,
/// with the key as text and the line of that first row, and the load goes on.
pub proof fn law_a_row_with_a_known_key_is_reported(
    rows: Seq<Result<(u64, Seq<Seq<u8>>), Seq<char>>>,
    line: u64,
    key: Seq<u8>,
    value: Seq<u8>,
    allow_binary: bool,
    first: int,
)
    requires
        !loaded(rows, allow_binary).stopped,
        0 <= first < loaded(rows, allow_binary).pairs.len(),
        loaded(rows, allow_binary).pairs[first].key == key,
    ensures
        ({
            let before = loaded(rows, allow_binary);
            let after = loaded(rows.push(Ok((line, seq![key, value]))), allow_binary);
            let problem = after.problems.last();
            &&& !after.stopped
            &&& after.pairs == before.pairs
            &&& after.problems == before.problems.push(problem)
            &&& problem.line == line
            &&& problem.kind matches ProblemKind::DuplicateKey { key: shown, first_line }
            &&& first_line == before.pairs[first].line
            &&& valid_utf8(key) ==> shown == decode_utf8(key)
            &&& !valid_utf8(key) ==> shown == lossy_text(key)
        }),
{
    lemma_row_more(rows, Ok((line, seq![key, value])));
    law_loaded_pairs_are_distinct_and_fit(rows, allow_binary);
    lemma_line_of_pair(loaded(rows, allow_binary).pairs, first);
}

/// A row with a new key and a value that is not UTF-8 is reported on its own line where
/// binary values are not allowed, whatever was reported before, and the load goes on.
pub proof fn law_a_binary_value_is_reported(
    rows: Seq<Result<(u64, Seq<Seq<u8>>), Seq<char>>>,
    line: u64,
    key: Seq<u8>,
    value: Seq<u8>,
)
    requires
        !loaded(rows, false).stopped,
        forall|i: int|
            0 <= i < loaded(rows, false).pairs.len() ==> (#[trigger] loaded(
                rows,
                false,
            ).pairs[i]).key != key,
        !valid_utf8(value),
    ensures
        ({
            let before = loaded(rows, false);
            let after = loaded(rows.push(Ok((line, seq![key, value]))), false);
            &&& !after.stopped
            &&& after.pairs == before.pairs
            &&& after.problems == before.problems.push(
                Problem { line, kind: ProblemKind::InvalidUtf8Value },
            )
        }),
{
    lemma_row_more(rows, Ok((line, seq![key, value])));
    lemma_line_with_key(loaded(rows, false).pairs, key);
}

/// A row with a new key and a value that may stand is reported as too large, and ends the
/// load, exactly where keys and values together outgrow 32-bit offsets; everywhere else it
/// is taken over as it is, and nothing is reported.
pub proof fn law_a_row_that_may_stand_is_taken_over_while_there_is_room(
    rows: Seq<Result<(u64, Seq<Seq<u8>>), Seq<char>>>,
    line: u64,
    key: Seq<u8>,
    value: Seq<u8>,
    allow_binary: bool,
)
    requires
        !loaded(rows, allow_binary).stopped,
        forall|i: int|
            0 <= i < loaded(rows, allow_binary).pairs.len() ==> (#[trigger] loaded(
                rows,
                allow_binary,
            ).pairs[i]).key != key,
        allow_binary || valid_utf8(value),
    ensures
        ({
            let before = loaded(rows, allow_binary);
            let after = loaded(rows.push(Ok((line, seq![key, value]))), allow_binary);
            let size = packed(before.pairs).len() + key.len() + value.len();
            &&& size <= 0xffff_ffff ==> {
                &&& !after.stopped
                &&& after.pairs == before.pairs.push(Pair { line, key, value })
                &&& after.problems == before.problems
            }
            &&& size > 0xffff_ffff ==> {
                &&& after.stopped
                &&& after.pairs == before.pairs
                &&& after.problems == before.problems.push(
                    Problem { line, kind: ProblemKind::TooLarge },
                )
            }
        }),
{
    lemma_row_more(rows, Ok((line, seq![key, value])));
    let before = loaded(rows, allow_binary).pairs;
    lemma_line_with_key(before, key);
    assert(before.push(Pair { line, key, value }).drop_last() =~= before);
}

/// Where binary values are not allowed, every value that is taken over is UTF-8, whatever
/// else the rows hold.
pub proof fn law_only_utf8_values_are_taken_over(
    rows: Seq<Result<(u64, Seq<Seq<u8>>), Seq<char>>>,
    i: int,
)
    requires
        0 <= i < loaded(rows, false).pairs.len(),
    ensures
        valid_utf8(loaded(rows, false).pairs[i].value),
    decreases rows.len(),
{
    if rows.len() > 0 {
        let before = loaded(rows.drop_last(), false).pairs;
        if i < before.len() {
            law_only_utf8_values_are_taken_over(rows.drop_last(), i);
        }
    }
}

/// What is taken over comes from the rows: every pair is a readable row of two columns,
/// with its line, key and value, and not before the row of that number.
pub proof fn law_pairs_come_from_rows(
    rows: Seq<Result<(u64, Seq<Seq<u8>>), Seq<char>>>,
    allow_binary: bool,
    n: int,
) -> (at: int)
    requires
        0 <= n < loaded(rows, allow_binary).pairs.len(),
    ensures
        ({
            let pair = loaded(rows, allow_binary).pairs[n];
            &&& n <= at < rows.len()
            &&& rows[at] is Ok
            &&& rows[at]->Ok_0.0 == pair.line
            &&& rows[at]->Ok_0.1.len() == 2
            &&& rows[at]->Ok_0.1[0] == pair.key
            &&& rows[at]->Ok_0.1[1] == pair.value
        }),
    decreases rows.len(),
{
    let front = rows.drop_last();
    let before = loaded(front, allow_binary).pairs;
    if n < before.len() {
        law_pairs_come_from_rows(front, allow_binary, n)
    } else {
        lemma_no_more_pairs_than_rows(front, allow_binary);
        rows.len() - 1
    }
}

proof fn lemma_no_more_pairs_than_rows(
    rows: Seq<Result<(u64, Seq<Seq<u8>>), Seq<char>>>,
    allow_binary: bool,
)
    ensures
        loaded(rows, allow_binary).pairs.len() <= rows.len(),
    decreases rows.len(),
{
    if rows.len() > 0 {
        lemma_no_more_pairs_than_rows(rows.drop_last(), allow_binary);
    }
}

/// A pair more is packed behind the others: its key, then its value, with nothing between
/// or behind, and its entry has the two windows on them.
pub proof fn law_a_pair_is_packed_behind_the_others(pairs: Seq<Pair>, pair: Pair)
    requires
        packed(pairs).len() + pair.key.len() + pair.value.len() <= 0xffff_ffff,
    ensures
        packed(pairs.push(pair)) == packed(pairs) + pair.key + pair.value,
        layout(pairs.push(pair)).len() == pairs.len() + 1,
        ({
            let entry = layout(pairs.push(pair)).last();
            &&& layout(pairs.push(pair)) == layout(pairs).push(entry)
            &&& entry.k_off == packed(pairs).len()
            &&& entry.k_len == pair.key.len()
            &&& entry.v_off == packed(pairs).len() + pair.key.len()
            &&& entry.v_len == pair.value.len()
        }),
{
    assert(pairs.push(pair).drop_last() =~= pairs);
    lemma_layout_len(pairs);
}

/// A load returns a dataset exactly where it found no problem, with the arena and the
/// entries of what was taken over, and otherwise every problem it found, in order.
pub proof fn law_a_load_returns_what_it_found(
    r: Result<(Vec<u8>, Vec<Entry>), Vec<DataError>>,
    p: Progress,
)
    requires
        outcome(r, p),
    ensures
        r is Ok <==> p.problems.len() == 0,
        r matches Ok((arena, entries)) ==> arena@ == packed(p.pairs) && entries@ == layout(
            p.pairs,
        ),
        r matches Err(errors) ==> {
            &&& errors@.len() == p.problems.len()
            &&& forall|i: int|
                0 <= i < errors@.len() ==> (#[trigger] errors@[i]).line == p.problems[i].line
                    && match (errors@[i].kind, p.problems[i].kind) {
                    (
                        DataErrorKind::WrongColumnCount { found },
                        ProblemKind::WrongColumnCount { found: n },
                    ) => found == n,
                    (
                        DataErrorKind::DuplicateKey { key, first_line },
                        ProblemKind::DuplicateKey { key: k, first_line: l },
                    ) => key@ == k && first_line == l,
                    (DataErrorKind::InvalidUtf8Value, ProblemKind::InvalidUtf8Value) => true,
                    (DataErrorKind::Malformed(m), ProblemKind::Malformed(n)) => m@ == n,
                    (DataErrorKind::TooLarge, ProblemKind::TooLarge) => true,
                    _ => false,
                }
        },
{
    if let Err(errors) = r {
        assert(problems_of(errors@).len() == errors@.len());
        assert forall|i: int| 0 <= i < errors@.len() implies (#[trigger] errors@[i])@
            == p.problems[i] by {
            assert(problems_of(errors@)[i] == errors@[i]@);
        }
    }
}

/// A message names the line first, and then says what is wrong there, with the numbers,
/// the key or the reason in it.
pub proof fn law_messages_say_what_is_wrong(
    line: u64,
    found: nat,
    key: Seq<char>,
    first_line: u64,
    reason: Seq<char>,
)
    ensures
        (Problem { line, kind: ProblemKind::WrongColumnCount { found } }).text() == "line "@
            + decimal(line as nat) + ": expected 2 columns, found "@ + decimal(found),
        (Problem { line, kind: ProblemKind::DuplicateKey { key, first_line } }).text()
            == "line "@ + decimal(line as nat) + ": duplicate key "@
            + quoted(
            key,
        ) + ", first seen on line "@ + decimal(
            first_line as nat,
        ),
        (Problem { line, kind: ProblemKind::InvalidUtf8Value }).text() == "line "@ + decimal(
            line as nat,
        ) + ": value is not valid UTF-8 (pass --allow-binary to permit)"@,
        (Problem { line, kind: ProblemKind::Malformed(reason) }).text() == "line "@ + decimal(
            line as nat,
        ) + ": malformed row: "@ + reason,
        (Problem { line, kind: ProblemKind::TooLarge }).text() == "line "@ + decimal(line as nat)
            + ": dataset exceeds the 4 GiB limit imposed by u32 offsets"@,
{
    reveal_strlit(": ");
    reveal_strlit("expected 2 columns, found ");
    reveal_strlit(": expected 2 columns, found ");
    reveal_strlit("duplicate key ");
    reveal_strlit(": duplicate key ");
    reveal_strlit("value is not valid UTF-8 (pass --allow-binary to permit)");
    reveal_strlit(": value is not valid UTF-8 (pass --allow-binary to permit)");
    reveal_strlit("malformed row: ");
    reveal_strlit(": malformed row: ");
    reveal_strlit("dataset exceeds the 4 GiB limit imposed by u32 offsets");
    reveal_strlit(": dataset exceeds the 4 GiB limit imposed by u32 offsets");
}

/// A header is the first row and no other: with one, the rows are those without it, but
/// for their first.
pub proof fn law_a_header_is_the_first_row(data: Seq<u8>, delimiter: u8)
    ensures
        csv_rows(data, delimiter, false) == all_rows(data, delimiter),
        all_rows(data, delimiter).len() == 0 ==> csv_rows(data, delimiter, true).len() == 0,
        all_rows(data, delimiter).len() > 0 ==> csv_rows(data, delimiter, true).len()
            == all_rows(data, delimiter).len() - 1,
        forall|i: int|
            0 <= i < csv_rows(data, delimiter, true).len() ==> #[trigger] csv_rows(
                data,
                delimiter,
                true,
            )[i] == all_rows(data, delimiter)[i + 1],
{
}

/// A row of two columns, pushed at any time and whatever was found before. Where a pair
/// has its key, that is reported, with the line of such a pair. Else, where its value is not
/// UTF-8 and has to be, that is. Else, where it is too much for 32-bit offsets, that is,
/// and nothing is to be read behind it. Everywhere else it is taken over as it is.
pub proof fn law_a_pair_is_taken_over_or_reported(p: Progress, pair: Pair, allow_binary: bool)
    ensures
        ({
            let after = p.with_pair(pair, allow_binary);
            let known = exists|i: int|
                0 <= i < p.pairs.len() && (#[trigger] p.pairs[i]).key == pair.key;
            let size = packed(p.pairs).len() + pair.key.len() + pair.value.len();
            let problem = after.problems.last();
            if known {
                &&& after.pairs == p.pairs
                &&& after.stopped == p.stopped
                &&& after.problems == p.problems.push(problem)
                &&& problem.line == pair.line
                &&& problem.kind matches ProblemKind::DuplicateKey { key: shown, first_line }
                &&& exists|i: int|
                    0 <= i < p.pairs.len() && (#[trigger] p.pairs[i]).key == pair.key
                        && p.pairs[i].line == first_line
                &&& valid_utf8(pair.key) ==> shown == decode_utf8(pair.key)
                &&& !valid_utf8(pair.key) ==> shown == lossy_text(pair.key)
            } else if !allow_binary && !valid_utf8(pair.value) {
                &&& after.pairs == p.pairs
                &&& after.stopped == p.stopped
                &&& after.problems == p.problems.push(
                    Problem { line: pair.line, kind: ProblemKind::InvalidUtf8Value },
                )
            } else if size > 0xffff_ffff {
                &&& after.pairs == p.pairs
                &&& after.stopped
                &&& after.problems == p.problems.push(
                    Problem { line: pair.line, kind: ProblemKind::TooLarge },
                )
            } else {
                &&& after.pairs == p.pairs.push(pair)
                &&& after.stopped == p.stopped
                &&& after.problems == p.problems
            }
        }),
{
    lemma_line_with_key(p.pairs, pair.key);
    assert(p.pairs.push(pair).drop_last() =~= p.pairs);
    if let Some(first_line) = line_with_key(p.pairs, pair.key) {
        let i = choose|i: int|
            0 <= i < p.pairs.len() && (#[trigger] p.pairs[i]).key == pair.key && Some(
                p.pairs[i].line,
            ) == line_with_key(p.pairs, pair.key);
        assert(p.pairs[i].line == first_line);
    }
}

/// A report is added behind those before it and changes nothing else, a stop changes
/// nothing else either, and a row that could not be read is both.
pub proof fn law_a_report_and_a_stop_change_nothing_else(
    p: Progress,
    line: u64,
    kind: ProblemKind,
    message: Seq<char>,
)
    ensures
        p.report(line, kind).pairs == p.pairs,
        p.report(line, kind).stopped == p.stopped,
        p.report(line, kind).problems == p.problems.push(Problem { line, kind }),
        p.stop().pairs == p.pairs,
        p.stop().problems == p.problems,
        p.stop().stopped,
        p.with_broken_row(line, message).pairs == p.pairs,
        p.with_broken_row(line, message).stopped,
        p.with_broken_row(line, message).problems == p.problems.push(
            Problem { line, kind: ProblemKind::Malformed(message) },
        ),
        Progress::start().pairs.len() == 0,
        Progress::start().problems.len() == 0,
        !Progress::start().stopped,
{
}

} // verus!
