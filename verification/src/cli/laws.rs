//! What the subcommands print and how they exit, in terms of what they were given.

use crate::cli::compile::{
    asked_after_renaming, asked_after_writing, image_of, law_a_built_image_loads_as_its_source,
    suffix_of, Asked, Plan, Step, Written,
};
use crate::cli::health::{healthcheck_says, is_ok_reply, probed, HTTP_1};
use crate::cli::{
    check_says, failed_text, load_failure_says, problem_lines_in, read_as_asked, refusal, Report,
    EXIT_INVALID_DATA, EXIT_IO, EXIT_OK,
};
use crate::config::{options_for, BuildArgs, DataArgs};
use crate::server::handlers::{
    answers_lookup, law_a_loaded_dataset_is_served_as_it_was_written, Answer, Content,
};
use crate::server::AppState;
use crate::store::arena::bytes_of;
use crate::store::compiled::image;
use crate::store::csv_loader::{layout, loaded, packed, LoadOptions, Pair, Problem};
use crate::store::rows::csv_rows;
use crate::store::{loads_to, LoadFailure, Loaded};
use crate::text::{
    decimal, law_different_numbers_are_written_differently, lemma_unlines_push, unlines,
};
use vstd::prelude::*;

verus! {

/// The bytes of all the keys and values.
pub open spec fn bytes_in(pairs: Seq<Pair>) -> nat
    decreases pairs.len(),
{
    if pairs.len() == 0 {
        0
    } else {
        bytes_in(pairs.drop_last()) + pairs.last().key.len() + pairs.last().value.len()
    }
}

proof fn lemma_bytes_in(pairs: Seq<Pair>)
    ensures
        packed(pairs).len() == bytes_in(pairs),
    decreases pairs.len(),
{
    if pairs.len() > 0 {
        lemma_bytes_in(pairs.drop_last());
    }
}

/// A problem on a line of its own, with the file it was found in.
pub open spec fn located(path: Seq<char>, problems: Seq<Problem>) -> Seq<Seq<char>> {
    Seq::new(problems.len(), |i: int| path + ": "@ + problems[i].text())
}

proof fn lemma_located(path: Seq<char>, problems: Seq<Problem>)
    ensures
        problem_lines_in(path, problems) == unlines(located(path, problems)),
    decreases problems.len(),
{
    let all = located(path, problems);
    if problems.len() == 0 {
        assert(all =~= Seq::empty());
    } else {
        let front = problems.drop_last();
        let line = path + ": "@ + problems.last().text();
        lemma_located(path, front);
        assert(all =~= located(path, front).push(line));
        lemma_unlines_push(located(path, front), line);
        assert(problem_lines_in(path, problems) =~= unlines(all));
    }
}

#[verifier::rlimit(40)]
proof fn lemma_failed_text(path: Seq<char>, message: Seq<char>)
    ensures
        failed_text("read"@, path, message) == "error: cannot read "@ + path + ": "@ + message
            + "\n"@,
        failed_text("load"@, path, message) == "error: cannot load "@ + path + ": "@ + message
            + "\n"@,
        failed_text("write"@, path, message) == "error: cannot write "@ + path + ": "@ + message
            + "\n"@,
        failed_text("finalize"@, path, message) == "error: cannot finalize "@ + path + ": "@
            + message + "\n"@,
{
    reveal_strlit("error: cannot ");
    reveal_strlit(" ");
    reveal_strlit("read");
    reveal_strlit("load");
    reveal_strlit("write");
    reveal_strlit("finalize");
    reveal_strlit("error: cannot read ");
    reveal_strlit("error: cannot load ");
    reveal_strlit("error: cannot write ");
    reveal_strlit("error: cannot finalize ");
    assert("error: cannot "@ + "read"@ + " "@ =~= "error: cannot read "@);
    assert("error: cannot "@ + "load"@ + " "@ =~= "error: cannot load "@);
    assert("error: cannot "@ + "write"@ + " "@ =~= "error: cannot write "@);
    assert("error: cannot "@ + "finalize"@ + " "@ =~= "error: cannot finalize "@);
}

/// `check` on a file that could not be read exits with 2 and the message of the system; on
/// one with problems with 1, every problem on a line behind the path, and their number; and
/// on a clean one with 0, the number of its keys and the bytes of all keys and values.
pub proof fn law_check_says_what_it_found(args: DataArgs, data: Result<Vec<u8>, String>)
    ensures
        ({
            let said = check_says(args, data);
            let path = args.data@.text;
            match data {
                Err(message) => {
                    &&& said.code == 2
                    &&& said.out == Seq::<char>::empty()
                    &&& said.err == "error: cannot read "@ + path + ": "@ + message@ + "\n"@
                },
                Ok(bytes) => {
                    let opts = options_for(args.parse, args.data@);
                    let rows = csv_rows(bytes@, opts.delimiter, args.parse.header);
                    let read = loaded(rows, args.parse.allow_binary);
                    let n = read.problems.len();
                    &&& n > 0 ==> {
                        &&& said.code == 1
                        &&& said.out == Seq::<char>::empty()
                        &&& said.err == unlines(located(path, read.problems)) + decimal(n)
                            + " problem(s) found in "@ + path + "\n"@
                    }
                    &&& n == 0 ==> {
                        &&& said.code == 0
                        &&& said.out == "ok: "@ + decimal(read.pairs.len()) + " keys, "@ + decimal(
                            bytes_in(read.pairs),
                        ) + " bytes of data in "@ + path + "\n"@
                        &&& said.err == Seq::<char>::empty()
                    }
                },
            }
        }),
{
    let path = args.data@.text;
    match data {
        Err(message) => {
            lemma_failed_text(path, message@);
        },
        Ok(bytes) => {
            let read = read_as_asked(bytes@, args.parse, args.data@);
            lemma_located(path, read.problems);
            lemma_bytes_in(read.pairs);
        },
    }
}

/// `build` refuses a dataset exactly where it could not be read or has problems, with what
/// `check` says of it; and what it writes of a clean one is the image of its pairs, with
/// flag one exactly where binary values were allowed.
pub proof fn law_build_writes_the_pairs_of_its_source(
    args: BuildArgs,
    data: Result<Vec<u8>, String>,
)
    ensures
        ({
            let path = args.data@.text;
            let refused = refusal(args.data@, data, args.parse);
            match data {
                Err(message) => {
                    &&& refused matches Some(said)
                    &&& said.code == 2
                    &&& said.out == Seq::<char>::empty()
                    &&& said.err == "error: cannot read "@ + path + ": "@ + message@ + "\n"@
                },
                Ok(bytes) => {
                    let opts = options_for(args.parse, args.data@);
                    let rows = csv_rows(bytes@, opts.delimiter, args.parse.header);
                    let read = loaded(rows, args.parse.allow_binary);
                    let n = read.problems.len();
                    &&& refused is Some <==> n > 0
                    &&& refused matches Some(said) ==> {
                        &&& said.code == 1
                        &&& said.out == Seq::<char>::empty()
                        &&& said.err == unlines(located(path, read.problems)) + decimal(n)
                            + " problem(s) found in "@ + path + "\n"@
                    }
                    &&& image_of(args, bytes@) == image(
                        packed(read.pairs),
                        layout(read.pairs),
                        if args.parse.allow_binary {
                            1
                        } else {
                            0
                        },
                    )
                },
            }
        }),
{
    let path = args.data@.text;
    match data {
        Err(message) => {
            lemma_failed_text(path, message@);
        },
        Ok(bytes) => {
            let read = read_as_asked(bytes@, args.parse, args.data@);
            lemma_located(path, read.problems);
        },
    }
}

/// A dataset that was built and then loaded is served as its source was written: the key of
/// a pair is answered with 200 and its value, byte for byte, and any other key with the
/// default, byte for byte, or with 404 where there is none.
pub proof fn law_a_built_dataset_is_served_as_it_was_written(
    args: BuildArgs,
    data: Seq<u8>,
    opts: LoadOptions,
    l: Loaded,
    s: AppState,
    key: Seq<u8>,
    head: bool,
    a: Answer,
)
    requires
        loads_to(image_of(args, data), opts, Ok(l)),
        s.store.bytes() == l.store.bytes(),
        s.store.entries() == l.store.entries(),
        answers_lookup(s, key, head, a),
    ensures
        ({
            let rows = csv_rows(
                data,
                options_for(args.parse, args.data@).delimiter,
                args.parse.header,
            );
            let pairs = loaded(rows, args.parse.allow_binary).pairs;
            &&& forall|i: int|
                0 <= i < pairs.len() && (#[trigger] pairs[i]).key == key ==> {
                    &&& a.status == 200
                    &&& a.content == Content::Value(pairs[i].value)
                    &&& !a.marks_default
                }
            &&& (forall|i: int| 0 <= i < pairs.len() ==> (#[trigger] pairs[i]).key != key)
                ==> match s.default_value {
                Some(d) => a.status == 200 && a.content == Content::Value(bytes_of(d))
                    && a.marks_default,
                None => a.status == 404 && a.content == Content::Empty && !a.marks_default,
            }
        }),
{
    let rows = csv_rows(
        data,
        options_for(args.parse, args.data@).delimiter,
        args.parse.header,
    );
    law_a_built_image_loads_as_its_source(args, data);
    law_a_loaded_dataset_is_served_as_it_was_written(
        s,
        rows,
        args.parse.allow_binary,
        key,
        head,
        a,
    );
}

/// A build whose scratch file could not be created ends with 2 and the message; one whose
/// scratch file could not be written removes it first; and a whole one is renamed.
pub proof fn law_a_scratch_file_is_written_or_the_build_says_why(plan: Plan, written: Written)
    ensures
        ({
            let asked = asked_after_writing(plan, written);
            &&& written is Whole ==> asked is Rename
            &&& written matches Written::NotCreated(message) ==> {
                &&& asked matches Asked::Finish(said)
                &&& said.code == 2
                &&& said.out == Seq::<char>::empty()
                &&& said.err == "error: cannot write "@ + plan.scratch@ + ": "@ + message@ + "\n"@
            }
            &&& written matches Written::Partly(message) ==> {
                &&& asked matches Asked::Discard(said)
                &&& said.code == 2
                &&& said.out == Seq::<char>::empty()
                &&& said.err == "error: cannot write "@ + plan.scratch@ + ": "@ + message@ + "\n"@
            }
        }),
{
    match written {
        Written::Whole => {},
        Written::NotCreated(message) => {
            lemma_failed_text(plan.scratch@, message@);
        },
        Written::Partly(message) => {
            lemma_failed_text(plan.scratch@, message@);
        },
    }
}

/// A build that could be renamed into place ends with 0 and says where to, how many keys
/// and how many bytes; one that could not removes the scratch file and ends with 2.
pub proof fn law_a_build_ends_in_place_or_says_why(plan: Plan, renamed: Result<(), String>)
    ensures
        ({
            let asked = asked_after_renaming(plan, renamed);
            &&& renamed is Ok ==> {
                &&& asked matches Asked::Finish(said)
                &&& said.code == 0
                &&& said.out == "built "@ + plan.out@ + " ("@ + decimal(plan.keys as nat)
                    + " keys, "@ + decimal(plan.arena_bytes as nat) + " bytes of data)\n"@
                &&& said.err == Seq::<char>::empty()
            }
            &&& renamed matches Err(message) ==> {
                &&& asked matches Asked::Discard(said)
                &&& said.code == 2
                &&& said.out == Seq::<char>::empty()
                &&& said.err == "error: cannot finalize "@ + plan.out@ + ": "@ + message@ + "\n"@
            }
        }),
{
    if let Err(message) = renamed {
        lemma_failed_text(plan.out@, message@);
    }
}

/// Two processes never share a scratch file: the suffix is the number of the process
/// between `.justkv-` and `.tmp`.
pub proof fn law_two_processes_use_two_scratch_files(out: Seq<char>, a: u32, b: u32)
    ensures
        suffix_of(a) == ".justkv-"@ + decimal(a as nat) + ".tmp"@,
        out + suffix_of(a) == out + suffix_of(b) ==> a == b,
{
    let (x, y) = (suffix_of(a), suffix_of(b));
    if out + x == out + y {
        assert(x =~= (out + x).skip(out.len() as int));
        assert(y =~= (out + y).skip(out.len() as int));
        let n = ".justkv-"@.len() as int;
        assert(x.len() == n + decimal(a as nat).len() + ".tmp"@.len());
        assert(y.len() == n + decimal(b as nat).len() + ".tmp"@.len());
        assert(decimal(a as nat) =~= x.subrange(n, n + decimal(a as nat).len()));
        assert(decimal(b as nat) =~= y.subrange(n, n + decimal(b as nat).len()));
        law_different_numbers_are_written_differently(a as nat, b as nat);
    }
}

/// `serve` without a dataset ends with 2 where the file could not be read and with 1 where
/// it is no dataset, and says why.
pub proof fn law_a_failed_load_ends_the_server(path: Seq<char>, why: LoadFailure)
    ensures
        ({
            let said = load_failure_says(path, why);
            &&& why is Io ==> said.code == 2
            &&& why is Compiled ==> said.code == 1
            &&& why is Data ==> said.code == 1
            &&& said.out == Seq::<char>::empty()
            &&& said.err == "error: cannot load "@ + path + ": "@ + why.text() + "\n"@
        }),
{
    lemma_failed_text(path, why.text());
}

/// The address that is probed is the one the server listens on, but for a host of all
/// zeros, alone or before a port, which becomes the loopback address.
#[verifier::rlimit(40)]
pub proof fn law_the_loopback_address_stands_in_for_every_interface(
    rest: Seq<char>,
    bind: Seq<char>,
)
    ensures
        probed("0.0.0.0"@) == "127.0.0.1"@,
        probed("0.0.0.0:"@ + rest) == "127.0.0.1:"@ + rest,
        bind != "0.0.0.0"@ && !"0.0.0.0:"@.is_prefix_of(bind) ==> probed(bind) == bind,
{
    reveal_strlit("0.0.0.0");
    reveal_strlit("0.0.0.0:");
    reveal_strlit("127.0.0.1");
    reveal_strlit("127.0.0.1:");
    let (any, all) = ("0.0.0.0"@, "0.0.0.0:"@);
    assert(any.take(7) =~= any);
    assert("127.0.0.1"@ + any.skip(7) =~= "127.0.0.1"@);
    assert((all + rest).take(7) =~= any);
    assert("127.0.0.1"@ + (all + rest).skip(7) =~= "127.0.0.1:"@ + rest);
    if any.is_prefix_of(bind) {
        assert(any == bind.take(7));
        if bind.len() == 7 {
            assert(bind =~= any);
        } else if bind[7] == ':' {
            assert forall|i: int| 0 <= i < 8 implies all[i] == bind.take(8)[i] by {
                if i < 7 {
                    assert(any[i] == bind.take(7)[i]);
                }
            }
            assert(all =~= bind.take(8));
        }
    }
}

/// A reply says that all is well exactly where it starts with `HTTP/1.`, any one byte and
/// ` 200`, with nothing, a space or the end of the line behind.
pub proof fn law_only_200_is_healthy(reply: Seq<u8>)
    ensures
        is_ok_reply(reply) <==> {
            &&& reply.len() >= 12
            &&& reply[0] == 'H' as u8 && reply[1] == 'T' as u8 && reply[2] == 'T' as u8
            &&& reply[3] == 'P' as u8 && reply[4] == '/' as u8 && reply[5] == '1' as u8
            &&& reply[6] == '.' as u8 && reply[8] == ' ' as u8
            &&& reply[9] == '2' as u8 && reply[10] == '0' as u8 && reply[11] == '0' as u8
            &&& reply.len() == 12 || reply[12] == ' ' as u8 || reply[12] == '\r' as u8
        },
{
    let http = HTTP_1@;
    assert(http =~= seq![0x48u8, 0x54, 0x54, 0x50, 0x2f, 0x31, 0x2e]);
    if reply.len() >= 12 {
        let start = reply.take(7);
        if start == http {
            assert(start[0] == reply[0] && start[1] == reply[1] && start[2] == reply[2]);
            assert(start[3] == reply[3] && start[4] == reply[4] && start[5] == reply[5]);
            assert(start[6] == reply[6]);
        } else {
            assert(!(start =~= http));
        }
    }
}

/// `healthcheck` ends with 0 and nothing said exactly where the server replied that all is
/// well; else with 1, and a line that says whether it was reached.
pub proof fn law_a_health_check_says_what_it_heard(
    addr: Seq<char>,
    reply: Result<Vec<u8>, String>,
)
    ensures
        ({
            let said = healthcheck_says(addr, reply);
            &&& said.out == Seq::<char>::empty()
            &&& match reply {
                Ok(bytes) => if is_ok_reply(bytes@) {
                    said.code == 0 && said.err == Seq::<char>::empty()
                } else {
                    said.code == 1 && said.err == "error: "@ + addr + " is not healthy\n"@
                },
                Err(message) => said.code == 1 && said.err == "error: cannot reach "@ + addr
                    + ": "@ + message@ + "\n"@,
            }
        }),
{
}

/// The three exit codes.
pub proof fn law_the_exit_codes()
    ensures
        EXIT_OK == 0,
        EXIT_INVALID_DATA == 1,
        EXIT_IO == 2,
{
}

/// A report says what it prints and how it exits, and a step asks for what it is.
pub proof fn law_reports_and_steps_are_taken_as_they_are(r: Report, s: Step)
    ensures
        r@.code == r.code,
        r@.out == r.out@,
        r@.err == r.err@,
        s is Write <==> s@ is Write,
        s is Rename <==> s@ is Rename,
        s matches Step::Discard(report) ==> s@ == Asked::Discard(report@),
        s matches Step::Finish(report) ==> s@ == Asked::Finish(report@),
{
}

} // verus!
