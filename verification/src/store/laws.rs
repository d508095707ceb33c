//! What holds of a dataset from its rows to a lookup.

use crate::store::compiled::{
    decoded, has_magic, image, is_readable, law_read_gives_back_what_was_written,
};
use crate::store::csv_loader::{
    distinct_keys, law_an_arena_of_distinct_keys_has_countable_entries, layout, lemma_layout_at,
    lemma_layout_fits, lemma_line_of_pair, lemma_line_with_key, line_with_key, loaded, packed,
    shown, Pair, Problem, ProblemKind,
};
use crate::store::rows::{
    after_header, are_writable, can_delimit, csv_reads_back, csv_rows, field_text,
    has_byte_order_mark, quoted_field, row_text, rows_as_written, written_text, Field,
};
use crate::store::{all_fit, has_key, has_pair, is_found, Entry, Store};
use vstd::prelude::*;
use vstd::utf8::valid_utf8;

verus! {

/// The pairs of rows that all have two columns.
pub open spec fn pairs_of(rows: Seq<Result<(u64, Seq<Seq<u8>>), Seq<char>>>) -> Seq<Pair> {
    Seq::new(
        rows.len(),
        |i: int|
            Pair {
                line: rows[i]->Ok_0.0,
                key: rows[i]->Ok_0.1[0],
                value: rows[i]->Ok_0.1[1],
            },
    )
}

/// Nothing is wrong with the rows: each one could be read and has two columns, no key
/// occurs twice, every value is UTF-8 unless binary values are allowed, and all of it
/// fits 32-bit offsets.
pub open spec fn is_clean(
    rows: Seq<Result<(u64, Seq<Seq<u8>>), Seq<char>>>,
    allow_binary: bool,
) -> bool {
    &&& forall|i: int|
        0 <= i < rows.len() ==> (#[trigger] rows[i]) is Ok && rows[i]->Ok_0.1.len() == 2
    &&& distinct_keys(pairs_of(rows))
    &&& allow_binary || forall|i: int|
        0 <= i < rows.len() ==> valid_utf8((#[trigger] rows[i])->Ok_0.1[1])
    &&& packed(pairs_of(rows)).len() <= u32::MAX
}

/// Some pair of the list has the key.
pub open spec fn pairs_have_key(pairs: Seq<Pair>, key: Seq<u8>) -> bool {
    exists|i: int| 0 <= i < pairs.len() && (#[trigger] pairs[i]).key == key
}

proof fn lemma_push_keeps_distinct(pairs: Seq<Pair>, pair: Pair)
    requires
        distinct_keys(pairs),
        line_with_key(pairs, pair.key) is None,
    ensures
        distinct_keys(pairs.push(pair)),
{
    lemma_line_with_key(pairs, pair.key);
}

/// Whatever the rows are, the pairs taken over have distinct keys and fit 32-bit offsets.
pub proof fn law_loaded_pairs_are_distinct_and_fit(
    rows: Seq<Result<(u64, Seq<Seq<u8>>), Seq<char>>>,
    allow_binary: bool,
)
    ensures
        distinct_keys(loaded(rows, allow_binary).pairs),
        packed(loaded(rows, allow_binary).pairs).len() <= u32::MAX,
    decreases rows.len(),
{
    if rows.len() > 0 {
        law_loaded_pairs_are_distinct_and_fit(rows.drop_last(), allow_binary);
        let before = loaded(rows.drop_last(), allow_binary);
        if !before.stopped {
            if let Ok((line, fields)) = rows.last() {
                if fields.len() == 2 {
                    let pair = Pair { line, key: fields[0], value: fields[1] };
                    if line_with_key(before.pairs, pair.key) is None {
                        lemma_push_keeps_distinct(before.pairs, pair);
                    }
                }
            }
        }
    }
}

/// Loading never stops at the first problem: unless a row could not be read or the data
/// grew too large, every row is either taken over or reported.
pub proof fn law_every_row_is_taken_over_or_reported(
    rows: Seq<Result<(u64, Seq<Seq<u8>>), Seq<char>>>,
    allow_binary: bool,
)
    ensures
        ({
            let p = loaded(rows, allow_binary);
            &&& p.pairs.len() + p.problems.len() <= rows.len()
            &&& !p.stopped ==> p.pairs.len() + p.problems.len() == rows.len()
            &&& p.stopped <==> p.problems.len() > 0 && (p.problems.last().kind is Malformed
                || p.problems.last().kind is TooLarge)
        }),
    decreases rows.len(),
{
    if rows.len() > 0 {
        law_every_row_is_taken_over_or_reported(rows.drop_last(), allow_binary);
    }
}

/// A report of a duplicate names a row that was taken over: its key and its line.
pub proof fn law_a_duplicate_names_the_first_row(
    rows: Seq<Result<(u64, Seq<Seq<u8>>), Seq<char>>>,
    allow_binary: bool,
    n: int,
)
    requires
        0 <= n < loaded(rows, allow_binary).problems.len(),
    ensures
        loaded(rows, allow_binary).problems[n].kind matches ProblemKind::DuplicateKey {
            key,
            first_line,
        } ==> exists|i: int|
            0 <= i < loaded(rows, allow_binary).pairs.len() && shown(
                (#[trigger] loaded(rows, allow_binary).pairs[i]).key,
            ) == key && loaded(rows, allow_binary).pairs[i].line == first_line,
    decreases rows.len(),
{
    let p = loaded(rows, allow_binary);
    if rows.len() > 0 {
        let before = loaded(rows.drop_last(), allow_binary);
        if n < before.problems.len() {
            law_a_duplicate_names_the_first_row(rows.drop_last(), allow_binary, n);
            if let ProblemKind::DuplicateKey { key, first_line } = before.problems[n].kind {
                let i = choose|i: int|
                    0 <= i < before.pairs.len() && shown((#[trigger] before.pairs[i]).key)
                        == key && before.pairs[i].line == first_line;
                assert(p.pairs[i] == before.pairs[i]);
            }
        } else if let Ok((line, fields)) = rows.last() {
            if fields.len() == 2 {
                lemma_line_with_key(before.pairs, fields[0]);
                if let Some(first_line) = line_with_key(before.pairs, fields[0]) {
                    let i = choose|i: int|
                        0 <= i < before.pairs.len() && (#[trigger] before.pairs[i]).key
                            == fields[0] && before.pairs[i].line == first_line;
                    assert(p.pairs[i] == before.pairs[i]);
                }
            }
        }
    }
}

/// What was taken over or reported stays so, whatever rows follow.
proof fn lemma_progress_grows(
    rows: Seq<Result<(u64, Seq<Seq<u8>>), Seq<char>>>,
    n: int,
    allow_binary: bool,
)
    requires
        0 <= n <= rows.len(),
    ensures
        loaded(rows.take(n), allow_binary).pairs.is_prefix_of(loaded(rows, allow_binary).pairs),
        loaded(rows.take(n), allow_binary).problems.is_prefix_of(
            loaded(rows, allow_binary).problems,
        ),
    decreases rows.len(),
{
    if n == rows.len() {
        assert(rows.take(n) =~= rows);
    } else {
        assert(rows.drop_last().take(n) =~= rows.take(n));
        lemma_progress_grows(rows.drop_last(), n, allow_binary);
        let early = loaded(rows.take(n), allow_binary);
        let before = loaded(rows.drop_last(), allow_binary);
        let all = loaded(rows, allow_binary);
        assert(all.pairs.take(before.pairs.len() as int) =~= before.pairs);
        assert(all.problems.take(before.problems.len() as int) =~= before.problems);
        assert(early.pairs =~= all.pairs.take(early.pairs.len() as int));
        assert(early.problems =~= all.problems.take(early.problems.len() as int));
    }
}

/// The row of two columns at `i` was taken over.
pub open spec fn is_taken_over(
    rows: Seq<Result<(u64, Seq<Seq<u8>>), Seq<char>>>,
    i: int,
    allow_binary: bool,
) -> bool {
    &&& rows[i] matches Ok((line, fields))
    &&& fields.len() == 2
    &&& loaded(rows.take(i + 1), allow_binary).pairs == loaded(rows.take(i), allow_binary).pairs.push(
        Pair { line, key: fields[0], value: fields[1] },
    )
}

/// A row with the key of a row that was taken over is reported, with the key and the
/// lines of both.
pub proof fn law_a_repeated_key_is_reported_with_both_lines(
    rows: Seq<Result<(u64, Seq<Seq<u8>>), Seq<char>>>,
    allow_binary: bool,
    i: int,
    j: int,
)
    requires
        0 <= i < j < rows.len(),
        is_taken_over(rows, i, allow_binary),
        rows[j] is Ok,
        rows[j]->Ok_0.1.len() == 2,
        rows[j]->Ok_0.1[0] == rows[i]->Ok_0.1[0],
        !loaded(rows.take(j), allow_binary).stopped,
    ensures
        loaded(rows, allow_binary).problems.contains(
            Problem {
                line: rows[j]->Ok_0.0,
                kind: ProblemKind::DuplicateKey {
                    key: shown(rows[i]->Ok_0.1[0]),
                    first_line: rows[i]->Ok_0.0,
                },
            },
        ),
{
    let key = rows[i]->Ok_0.1[0];
    let front = rows.take(j);
    let before = loaded(front, allow_binary);
    let upto = loaded(rows.take(j + 1), allow_binary);
    let first = loaded(rows.take(i + 1), allow_binary).pairs;
    assert(front.take(i + 1) =~= rows.take(i + 1));
    lemma_progress_grows(front, i + 1, allow_binary);
    let k = first.len() - 1;
    assert(before.pairs.take(first.len() as int)[k] == first[k]);
    assert(before.pairs[k].key == key && before.pairs[k].line == rows[i]->Ok_0.0);
    law_loaded_pairs_are_distinct_and_fit(front, allow_binary);
    lemma_line_of_pair(before.pairs, k);
    assert(rows.take(j + 1).drop_last() =~= front);
    assert(rows.take(j + 1).last() == rows[j]);
    let report = upto.problems.last();
    lemma_progress_grows(rows, j + 1, allow_binary);
    let all = loaded(rows, allow_binary).problems;
    let n = upto.problems.len() - 1;
    assert(all.take(upto.problems.len() as int)[n] == report);
    assert(all[n] == report);
}

/// A load succeeds exactly on clean rows, and then takes all of them over, in order.
pub proof fn law_a_load_succeeds_exactly_on_clean_rows(
    rows: Seq<Result<(u64, Seq<Seq<u8>>), Seq<char>>>,
    allow_binary: bool,
)
    ensures
        loaded(rows, allow_binary).problems.len() == 0 <==> is_clean(rows, allow_binary),
        is_clean(rows, allow_binary) ==> loaded(rows, allow_binary).pairs == pairs_of(rows),
    decreases rows.len(),
{
    let p = loaded(rows, allow_binary);
    if rows.len() == 0 {
        assert(p.pairs =~= pairs_of(rows));
        assert(packed(pairs_of(rows)) =~= Seq::empty());
    } else {
        let front = rows.drop_last();
        let before = loaded(front, allow_binary);
        law_a_load_succeeds_exactly_on_clean_rows(front, allow_binary);
        law_every_row_is_taken_over_or_reported(front, allow_binary);
        let all = pairs_of(rows);
        assert(all.drop_last() =~= pairs_of(front));
        if is_clean(rows, allow_binary) {
            assert forall|i: int| 0 <= i < front.len() implies (#[trigger] front[i]) is Ok
                && front[i]->Ok_0.1.len() == 2 && (allow_binary || valid_utf8(
                front[i]->Ok_0.1[1],
            )) by {
                assert(front[i] == rows[i]);
            }
            assert forall|i: int, j: int| 0 <= i < j < pairs_of(front).len() implies (
            #[trigger] pairs_of(front)[i]).key != (#[trigger] pairs_of(front)[j]).key by {
                assert(all[i].key != all[j].key);
            }
            assert(is_clean(front, allow_binary));
            let last = rows[rows.len() - 1];
            assert(all.last() == Pair {
                line: last->Ok_0.0,
                key: last->Ok_0.1[0],
                value: last->Ok_0.1[1],
            });
            assert(all =~= pairs_of(front).push(all.last()));
            lemma_line_with_key(before.pairs, all.last().key);
            assert(line_with_key(before.pairs, all.last().key) is None) by {
                if line_with_key(before.pairs, all.last().key) is Some {
                    let i = choose|i: int|
                        0 <= i < before.pairs.len() && (#[trigger] before.pairs[i]).key
                            == all.last().key && Some(before.pairs[i].line) == line_with_key(
                            before.pairs,
                            all.last().key,
                        );
                    assert(all[i].key != all[rows.len() - 1].key);
                }
            }
            assert(p.pairs =~= all);
        }
        if p.problems.len() == 0 {
            assert(before.problems.len() == 0);
            assert(rows.last() is Ok && rows.last()->Ok_0.1.len() == 2);
            law_loaded_pairs_are_distinct_and_fit(rows, allow_binary);
            assert forall|i: int| 0 <= i < rows.len() implies (#[trigger] rows[i]) is Ok
                && rows[i]->Ok_0.1.len() == 2 && (allow_binary || valid_utf8(
                rows[i]->Ok_0.1[1],
            )) by {
                if i < front.len() {
                    assert(rows[i] == front[i]);
                }
            }
            assert(all =~= p.pairs);
        }
    }
}

/// One problem for each row whose value is not UTF-8, in order.
pub open spec fn not_utf8(rows: Seq<Result<(u64, Seq<Seq<u8>>), Seq<char>>>) -> Seq<Problem>
    decreases rows.len(),
{
    if rows.len() == 0 {
        Seq::empty()
    } else {
        let front = not_utf8(rows.drop_last());
        let row = rows.last()->Ok_0;
        if valid_utf8(row.1[1]) {
            front
        } else {
            front.push(Problem { line: row.0, kind: ProblemKind::InvalidUtf8Value })
        }
    }
}

/// The pairs whose values are UTF-8, in order.
pub open spec fn utf8_pairs(pairs: Seq<Pair>) -> Seq<Pair>
    decreases pairs.len(),
{
    if pairs.len() == 0 {
        Seq::empty()
    } else if valid_utf8(pairs.last().value) {
        utf8_pairs(pairs.drop_last()).push(pairs.last())
    } else {
        utf8_pairs(pairs.drop_last())
    }
}

proof fn lemma_utf8_pairs_are_some(pairs: Seq<Pair>, key: Seq<u8>)
    ensures
        pairs_have_key(utf8_pairs(pairs), key) ==> pairs_have_key(pairs, key),
        packed(utf8_pairs(pairs)).len() <= packed(pairs).len(),
    decreases pairs.len(),
{
    if pairs.len() > 0 {
        let front = pairs.drop_last();
        let some = utf8_pairs(pairs);
        lemma_utf8_pairs_are_some(front, key);
        if valid_utf8(pairs.last().value) {
            assert(some.drop_last() =~= utf8_pairs(front));
        }
        if pairs_have_key(some, key) {
            let i = choose|i: int| 0 <= i < some.len() && (#[trigger] some[i]).key == key;
            if valid_utf8(pairs.last().value) && i == some.len() - 1 {
                assert(pairs[pairs.len() - 1].key == key);
            } else {
                assert(utf8_pairs(front)[i].key == key);
                let j = choose|j: int| 0 <= j < front.len() && (#[trigger] front[j]).key == key;
                assert(pairs[j].key == key);
            }
        }
    }
}

/// A dataset that is clean where binary values are allowed is, where they are not, refused
/// for exactly those: there is one problem for each value that is not UTF-8, on its line,
/// and no other; all the other pairs are taken over.
pub proof fn law_exactly_the_binary_values_are_refused(
    rows: Seq<Result<(u64, Seq<Seq<u8>>), Seq<char>>>,
)
    requires
        is_clean(rows, true),
    ensures
        loaded(rows, false).problems == not_utf8(rows),
        loaded(rows, false).pairs == utf8_pairs(pairs_of(rows)),
        !loaded(rows, false).stopped,
        loaded(rows, false).problems.len() == 0 <==> is_clean(rows, false),
    decreases rows.len(),
{
    let all = pairs_of(rows);
    if rows.len() > 0 {
        let front = rows.drop_last();
        assert(pairs_of(front) =~= all.drop_last());
        assert(all.drop_last().push(all.last()) =~= all);
        assert(is_clean(front, true)) by {
            assert forall|i: int| 0 <= i < front.len() implies (#[trigger] front[i]) is Ok
                && front[i]->Ok_0.1.len() == 2 by {
                assert(front[i] == rows[i]);
            }
        }
        law_exactly_the_binary_values_are_refused(front);
        let before = loaded(front, false);
        let pair = all.last();
        assert(rows[rows.len() - 1] is Ok && rows[rows.len() - 1]->Ok_0.1.len() == 2);
        lemma_utf8_pairs_are_some(all.drop_last(), pair.key);
        lemma_line_with_key(before.pairs, pair.key);
        assert(!pairs_have_key(all.drop_last(), pair.key)) by {
            assert forall|i: int| 0 <= i < all.len() - 1 implies (#[trigger] all.drop_last()[i]).key
                != pair.key by {
                assert(all[i].key != all[all.len() - 1].key);
            }
        }
        assert(line_with_key(before.pairs, pair.key) is None);
        assert(before.pairs.push(pair).drop_last() =~= before.pairs);
        assert(packed(before.pairs.push(pair)).len() <= packed(all).len());
    } else {
        assert(all =~= Seq::empty());
    }
    law_a_load_succeeds_exactly_on_clean_rows(rows, false);
}

/// Pairs as text: each on a line of its own, with both fields between quotes.
pub open spec fn quoted_text(pairs: Seq<(Seq<u8>, Seq<u8>)>, delimiter: u8) -> Seq<u8>
    decreases pairs.len(),
{
    if pairs.len() == 0 {
        Seq::empty()
    } else {
        quoted_text(pairs.drop_last(), delimiter) + quoted_field(pairs.last().0)
            + seq![delimiter] + quoted_field(pairs.last().1) + seq![0x0a]
    }
}

/// The rows are the pairs, one by one, whatever lines they stand on.
pub open spec fn read_as(
    rows: Seq<Result<(u64, Seq<Seq<u8>>), Seq<char>>>,
    pairs: Seq<(Seq<u8>, Seq<u8>)>,
) -> bool {
    &&& rows.len() == pairs.len()
    &&& forall|i: int|
        0 <= i < rows.len() ==> {
            &&& (#[trigger] rows[i]) matches Ok(row)
            &&& row.1 == seq![pairs[i].0, pairs[i].1]
        }
}

spec fn quoted_row(pair: (Seq<u8>, Seq<u8>)) -> Seq<Field> {
    seq![Field { bytes: pair.0, quoted: true }, Field { bytes: pair.1, quoted: true }]
}

spec fn quoted_rows(pairs: Seq<(Seq<u8>, Seq<u8>)>) -> Seq<Seq<Field>> {
    Seq::new(pairs.len(), |i: int| quoted_row(pairs[i]))
}

proof fn lemma_quoted_text(pairs: Seq<(Seq<u8>, Seq<u8>)>, delimiter: u8)
    ensures
        quoted_text(pairs, delimiter) == written_text(quoted_rows(pairs), delimiter),
        quoted_text(pairs, delimiter).len() > 0 ==> quoted_text(pairs, delimiter)[0] == 0x22,
        are_writable(quoted_rows(pairs), delimiter),
    decreases pairs.len(),
{
    if pairs.len() > 0 {
        let front = pairs.drop_last();
        let row = quoted_row(pairs.last());
        lemma_quoted_text(front, delimiter);
        assert(quoted_rows(pairs).drop_last() =~= quoted_rows(front));
        assert(quoted_rows(pairs).last() == row);
        assert(row.drop_last().len() == 1 && row.drop_last()[0] == row[0]);
        assert(row_text(row.drop_last(), delimiter) == field_text(row[0]));
        assert(row_text(row, delimiter) =~= quoted_field(pairs.last().0) + seq![delimiter]
            + quoted_field(pairs.last().1));
        assert(quoted_text(pairs, delimiter) =~= written_text(quoted_rows(pairs), delimiter));
    }
}

/// Pairs that were written out with every field between quotes are read back as they were,
/// but for one that stands where a header is skipped.
pub proof fn law_quoted_pairs_are_read_back(
    data: Seq<u8>,
    pairs: Seq<(Seq<u8>, Seq<u8>)>,
    delimiter: u8,
    has_header: bool,
)
    requires
        csv_reads_back(data, delimiter, has_header),
        can_delimit(delimiter),
        data == quoted_text(pairs, delimiter),
    ensures
        read_as(csv_rows(data, delimiter, has_header), after_header(pairs, has_header)),
{
    let rows = quoted_rows(pairs);
    let all = rows_as_written(rows, delimiter);
    let read = after_header(all, has_header);
    let kept = after_header(pairs, has_header);
    lemma_quoted_text(pairs, delimiter);
    assert(!has_byte_order_mark(data));
    assert(csv_rows(data, delimiter, has_header) == read);
    let skipped = pairs.len() - kept.len();
    assert forall|i: int| 0 <= i < read.len() implies {
        &&& (#[trigger] read[i]) matches Ok(row)
        &&& row.1 == seq![kept[i].0, kept[i].1]
    } by {
        assert(read[i] == all[i + skipped]);
        assert(kept[i] == pairs[i + skipped]);
        assert(all[i + skipped]->Ok_0.1 =~= seq![kept[i].0, kept[i].1]);
    }
}

/// Pairs of keys and values, without the lines they stand on.
pub open spec fn unplaced(pairs: Seq<(Seq<u8>, Seq<u8>)>) -> Seq<Pair> {
    Seq::new(pairs.len(), |i: int| Pair { line: 0, key: pairs[i].0, value: pairs[i].1 })
}

/// The pairs make up a dataset: no key occurs twice, every value is UTF-8 unless binary
/// values are allowed, and all of it fits 32-bit offsets.
pub open spec fn make_up_a_dataset(
    pairs: Seq<(Seq<u8>, Seq<u8>)>,
    allow_binary: bool,
) -> bool {
    &&& distinct_keys(unplaced(pairs))
    &&& allow_binary || forall|i: int|
        0 <= i < pairs.len() ==> valid_utf8((#[trigger] pairs[i]).1)
    &&& packed(unplaced(pairs)).len() <= u32::MAX
}

/// Lines have no part in how pairs are packed.
proof fn lemma_packing_ignores_lines(a: Seq<Pair>, b: Seq<Pair>)
    requires
        a.len() == b.len(),
        forall|i: int|
            0 <= i < a.len() ==> (#[trigger] a[i]).key == b[i].key && a[i].value == b[i].value,
    ensures
        packed(a) == packed(b),
        layout(a) == layout(b),
    decreases a.len(),
{
    if a.len() > 0 {
        assert(a[a.len() - 1].key == b[a.len() - 1].key);
        lemma_packing_ignores_lines(a.drop_last(), b.drop_last());
    }
}

/// Rows that read as the pairs of a dataset load to exactly these pairs, in order: no
/// problem is found, and the windows of each entry show its key and its value.
pub proof fn law_rows_of_a_dataset_load_as_its_pairs(
    rows: Seq<Result<(u64, Seq<Seq<u8>>), Seq<char>>>,
    pairs: Seq<(Seq<u8>, Seq<u8>)>,
    allow_binary: bool,
)
    requires
        read_as(rows, pairs),
        make_up_a_dataset(pairs, allow_binary),
    ensures
        ({
            let p = loaded(rows, allow_binary);
            let (arena, entries) = (packed(p.pairs), layout(p.pairs));
            &&& p.problems.len() == 0
            &&& arena == packed(unplaced(pairs))
            &&& entries == layout(unplaced(pairs))
            &&& entries.len() == pairs.len()
            &&& forall|i: int|
                0 <= i < pairs.len() ==> (#[trigger] entries[i]).key_in(arena) == pairs[i].0
                    && entries[i].value_in(arena) == pairs[i].1
        }),
{
    let taken = pairs_of(rows);
    let plain = unplaced(pairs);
    assert forall|i: int| 0 <= i < taken.len() implies (#[trigger] taken[i]).key == plain[i].key
        && taken[i].value == plain[i].value by {
        assert(rows[i] is Ok);
    }
    lemma_packing_ignores_lines(taken, plain);
    assert(distinct_keys(taken)) by {
        assert forall|i: int, j: int| 0 <= i < j < taken.len() implies (#[trigger] taken[i]).key
            != (#[trigger] taken[j]).key by {
            assert(plain[i].key != plain[j].key);
        }
    }
    assert(is_clean(rows, allow_binary)) by {
        assert forall|i: int| 0 <= i < rows.len() && !allow_binary implies valid_utf8(
            (#[trigger] rows[i])->Ok_0.1[1],
        ) by {
            assert(valid_utf8(pairs[i].1));
        }
    }
    law_a_load_succeeds_exactly_on_clean_rows(rows, allow_binary);
    lemma_layout_fits(plain);
    assert forall|i: int| 0 <= i < pairs.len() implies (#[trigger] layout(plain)[i]).key_in(
        packed(plain),
    ) == pairs[i].0 && layout(plain)[i].value_in(packed(plain)) == pairs[i].1 by {
        lemma_layout_at(plain, i);
    }
}

/// Packing keeps every pair readable: the keys of a dataset are exactly those of its
/// pairs, and under a key lies the value of its pair and no other.
pub proof fn law_a_dataset_holds_exactly_its_pairs(pairs: Seq<Pair>)
    requires
        distinct_keys(pairs),
        packed(pairs).len() <= u32::MAX,
    ensures
        all_fit(layout(pairs), packed(pairs).len() as int),
        forall|key: Seq<u8>|
            #![trigger has_key(layout(pairs), packed(pairs), key)]
            has_key(layout(pairs), packed(pairs), key) <==> pairs_have_key(pairs, key),
        forall|i: int, value: Seq<u8>|
            #![trigger has_pair(layout(pairs), packed(pairs), pairs[i].key, value)]
            0 <= i < pairs.len() ==> (has_pair(layout(pairs), packed(pairs), pairs[i].key, value)
                <==> value == pairs[i].value),
{
    let entries = layout(pairs);
    let arena = packed(pairs);
    lemma_layout_fits(pairs);
    assert forall|i: int| 0 <= i < pairs.len() implies (#[trigger] entries[i]).key_in(arena)
        == pairs[i].key && entries[i].value_in(arena) == pairs[i].value by {
        lemma_layout_at(pairs, i);
    }
    assert forall|key: Seq<u8>| #[trigger]
        has_key(entries, arena, key) <==> pairs_have_key(pairs, key) by {
        if has_key(entries, arena, key) {
            let i = choose|i: int|
                0 <= i < entries.len() && (#[trigger] entries[i]).key_in(arena) == key;
            assert(pairs[i].key == key);
        }
        if pairs_have_key(pairs, key) {
            let i = choose|i: int| 0 <= i < pairs.len() && (#[trigger] pairs[i]).key == key;
            assert(entries[i].key_in(arena) == key);
        }
    }
    assert forall|i: int, value: Seq<u8>|
        #![trigger has_pair(layout(pairs), packed(pairs), pairs[i].key, value)]
        0 <= i < pairs.len() implies (has_pair(entries, arena, pairs[i].key, value) <==> value
        == pairs[i].value) by {
        assert(entries[i].key_in(arena) == pairs[i].key);
        if has_pair(entries, arena, pairs[i].key, value) {
            let j = choose|j: int|
                0 <= j < entries.len() && (#[trigger] entries[j]).key_in(arena) == pairs[i].key
                    && entries[j].value_in(arena) == value;
            assert(pairs[j].key == pairs[i].key);
            if i < j {
                assert(pairs[i].key != pairs[j].key);
            } else if j < i {
                assert(pairs[j].key != pairs[i].key);
            }
        }
    }
}

/// No two entries of the list have the same key.
pub open spec fn entries_are_distinct(entries: Seq<Entry>, arena: Seq<u8>) -> bool {
    forall|i: int, j: int|
        0 <= i < j < entries.len() ==> (#[trigger] entries[i]).key_in(arena) != (
        #[trigger] entries[j]).key_in(arena)
}

/// A store of entries with distinct keys finds every one of them: a lookup of an entry's
/// key comes to its value, and a lookup of any other key to nothing.
pub proof fn law_a_store_finds_every_entry_under_its_key(
    s: Store,
    key: Seq<u8>,
    found: Option<Seq<u8>>,
)
    requires
        entries_are_distinct(s.entries(), s.bytes()),
        is_found(s, key, found),
    ensures
        forall|i: int|
            0 <= i < s.entries().len() && (#[trigger] s.entries()[i]).key_in(s.bytes()) == key
                ==> found == Some(s.entries()[i].value_in(s.bytes())),
        !has_key(s.entries(), s.bytes(), key) ==> found is None,
{
    let (entries, arena) = (s.entries(), s.bytes());
    if let Some(value) = found {
        let j = choose|j: int|
            0 <= j < entries.len() && (#[trigger] entries[j]).key_in(arena) == key
                && entries[j].value_in(arena) == value;
        assert(entries[j].key_in(arena) == key);
        assert forall|i: int|
            0 <= i < entries.len() && (#[trigger] entries[i]).key_in(arena)
                == key implies entries[i].value_in(arena) == value by {
            if i < j {
                assert(entries[i].key_in(arena) != entries[j].key_in(arena));
            } else if j < i {
                assert(entries[j].key_in(arena) != entries[i].key_in(arena));
            }
        }
    }
}

/// The order in which distinct entries are listed makes no difference to any lookup.
pub proof fn law_the_order_of_entries_does_not_matter(
    a: Store,
    b: Store,
    key: Seq<u8>,
    in_a: Option<Seq<u8>>,
    in_b: Option<Seq<u8>>,
)
    requires
        a.bytes() == b.bytes(),
        a.entries().to_multiset() == b.entries().to_multiset(),
        entries_are_distinct(a.entries(), a.bytes()),
        entries_are_distinct(b.entries(), b.bytes()),
        is_found(a, key, in_a),
        is_found(b, key, in_b),
    ensures
        in_a == in_b,
{
    let arena = a.bytes();
    law_a_store_finds_every_entry_under_its_key(a, key, in_a);
    law_a_store_finds_every_entry_under_its_key(b, key, in_b);
    if has_key(a.entries(), arena, key) {
        let i = choose|i: int|
            0 <= i < a.entries().len() && (#[trigger] a.entries()[i]).key_in(arena) == key;
        let e = a.entries()[i];
        assert(a.entries().contains(e));
        vstd::seq_lib::to_multiset_contains(a.entries(), e);
        vstd::seq_lib::to_multiset_contains(b.entries(), e);
        assert(b.entries().contains(e));
        let j = choose|j: int| 0 <= j < b.entries().len() && b.entries()[j] == e;
        assert(b.entries()[j].key_in(arena) == key);
    } else if has_key(b.entries(), arena, key) {
        let j = choose|j: int|
            0 <= j < b.entries().len() && (#[trigger] b.entries()[j]).key_in(arena) == key;
        let e = b.entries()[j];
        assert(b.entries().contains(e));
        vstd::seq_lib::to_multiset_contains(a.entries(), e);
        vstd::seq_lib::to_multiset_contains(b.entries(), e);
        assert(a.entries().contains(e));
        let i = choose|i: int| 0 <= i < a.entries().len() && a.entries()[i] == e;
        assert(a.entries()[i].key_in(arena) == key);
    }
}

/// The two load paths cannot be told apart: whatever the CSV loader produces, compiling
/// it and reading it back yields the same arena and the same entries.
pub proof fn law_csv_and_compiled_paths_agree(
    rows: Seq<Result<(u64, Seq<Seq<u8>>), Seq<char>>>,
    allow_binary: bool,
    flags: u32,
)
    ensures
        ({
            let pairs = loaded(rows, allow_binary).pairs;
            let data = image(packed(pairs), layout(pairs), flags);
            &&& has_magic(data)
            &&& is_readable(data)
            &&& decoded(data) == (packed(pairs), layout(pairs), flags)
        }),
{
    let pairs = loaded(rows, allow_binary).pairs;
    law_loaded_pairs_are_distinct_and_fit(rows, allow_binary);
    law_an_arena_of_distinct_keys_has_countable_entries(pairs);
    lemma_layout_fits(pairs);
    law_read_gives_back_what_was_written(packed(pairs), layout(pairs), flags);
}

} // verus!
