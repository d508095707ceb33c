//! The subcommands: what they print and how they exit, apart from the files they touch.

use crate::config::{options_for, DataArgs, ParseArgs};
use crate::path::{DataPath, Located};
use crate::store::csv_loader::{
    lemma_layout_len, loaded, outcome, packed, parse_csv, problems_of, DataError, Problem,
    Progress,
};
use crate::store::rows::{csv_reads_back, csv_rows};
use crate::store::{Entry, LoadFailure};
use crate::text::{decimal, push_len};
use vstd::prelude::*;
use vstd::string::StringExecFns;

pub mod compile;
pub mod health;
pub mod laws;

verus! {

/// All is well.
pub const EXIT_OK: u8 = 0;

/// The dataset has problems, or the server is not healthy.
pub const EXIT_INVALID_DATA: u8 = 1;

/// A file or an address could not be used.
pub const EXIT_IO: u8 = 2;

/// How a subcommand ends: its exit code, and what it prints to the two streams.
pub struct Report {
    pub code: u8,
    pub out: String,
    pub err: String,
}

/// What a [`Report`] says.
pub struct Said {
    pub code: u8,
    pub out: Seq<char>,
    pub err: Seq<char>,
}

impl View for Report {
    type V = Said;

    open spec fn view(&self) -> Said {
        Said { code: self.code, out: self.out@, err: self.err@ }
    }
}

/// Success, with a line for people.
pub open spec fn success(line: Seq<char>) -> Said {
    Said { code: EXIT_OK, out: line, err: Seq::empty() }
}

/// Failure, with what went wrong.
pub open spec fn failure(code: u8, err: Seq<char>) -> Said {
    Said { code, out: Seq::empty(), err }
}

/// What the bytes of a dataset hold, read as a command line asks.
pub open spec fn read_as_asked(data: Seq<u8>, parse: ParseArgs, path: Located) -> Progress {
    let opts = options_for(parse, path);
    loaded(csv_rows(data, opts.delimiter, opts.has_header), opts.allow_binary)
}

/// Bytes that were written row by row are read as these rows.
pub open spec fn reads_back_as_asked(
    data: Result<Vec<u8>, String>,
    parse: ParseArgs,
    path: Located,
) -> bool {
    let opts = options_for(parse, path);
    data is Ok ==> csv_reads_back(data->Ok_0@, opts.delimiter, opts.has_header)
}

/// One line per problem, each with the path.
pub open spec fn problem_lines_in(path: Seq<char>, problems: Seq<Problem>) -> Seq<char>
    decreases problems.len(),
{
    if problems.len() == 0 {
        Seq::empty()
    } else {
        problem_lines_in(path, problems.drop_last()) + path + ": "@ + problems.last().text() + "\n"@
    }
}

/// Every problem, and how many there are.
pub open spec fn problems_text(path: Seq<char>, problems: Seq<Problem>) -> Seq<char> {
    problem_lines_in(path, problems) + decimal(problems.len()) + " problem(s) found in "@ + path
        + "\n"@
}

/// A failed operation on a path, with the message of the system.
pub open spec fn failed_text(what: Seq<char>, path: Seq<char>, message: Seq<char>) -> Seq<char> {
    "error: cannot "@ + what + " "@ + path + ": "@ + message + "\n"@
}

/// Say that an operation on a path failed, with the message of the system.
pub fn failed(what: &str, path: &str, message: &str) -> (r: Report)
    ensures
        r@ == failure(EXIT_IO, failed_text(what@, path@, message@)),
{
    let mut err = String::new();
    err.append("error: cannot ");
    err.append(what);
    err.append(" ");
    err.append(path);
    err.append(": ");
    err.append(message);
    err.append("\n");
    assert(err@ =~= failed_text(what@, path@, message@));
    Report { code: EXIT_IO, out: String::new(), err }
}

/// List every problem of a dataset.
fn report_problems(path: &str, errors: &Vec<DataError>) -> (r: Report)
    ensures
        r@ == failure(EXIT_INVALID_DATA, problems_text(path@, problems_of(errors@))),
{
    let mut err = String::new();
    let ghost problems = problems_of(errors@);
    let mut i: usize = 0;
    while i < errors.len()
        invariant
            i <= errors@.len(),
            problems == problems_of(errors@),
            err@ == problem_lines_in(path@, problems.take(i as int)),
        decreases errors@.len() - i,
    {
        err.append(path);
        err.append(": ");
        err.append(errors[i].to_string().as_str());
        err.append("\n");
        assert(problems.take(i + 1).drop_last() =~= problems.take(i as int));
        i += 1;
    }
    assert(problems.take(i as int) =~= problems);
    push_len(&mut err, errors.len());
    err.append(" problem(s) found in ");
    err.append(path);
    err.append("\n");
    assert(err@ =~= problems_text(path@, problems));
    Report { code: EXIT_INVALID_DATA, out: String::new(), err }
}

/// How validation fails, where it does: the file could not be read, or has problems.
pub open spec fn refusal(
    path: Located,
    data: Result<Vec<u8>, String>,
    parse: ParseArgs,
) -> Option<Said> {
    match data {
        Err(message) => Some(failure(EXIT_IO, failed_text("read"@, path.text, message@))),
        Ok(data) => {
            let problems = read_as_asked(data@, parse, path).problems;
            if problems.len() > 0 {
                Some(failure(EXIT_INVALID_DATA, problems_text(path.text, problems)))
            } else {
                None
            }
        },
    }
}

/// Validate what was read from `path`, reporting every problem. Hands the parsed parts
/// over so that `build` does not have to parse twice.
pub fn parse_validated(
    path: &DataPath,
    data: Result<Vec<u8>, String>,
    parse: &ParseArgs,
) -> (r: Result<(Vec<u8>, Vec<Entry>), Report>)
    ensures
        match r {
            Ok(parts) => {
                &&& refusal(path@, data, *parse) is None
                &&& outcome(Ok(parts), read_as_asked(data->Ok_0@, *parse, path@))
            },
            Err(report) => refusal(path@, data, *parse) == Some(report@),
        },
        reads_back_as_asked(data, *parse, path@),
{
    let bytes: Vec<u8> = match data {
        Ok(bytes) => bytes,
        Err(message) => {
            return Err(failed("read", path.text.as_str(), message.as_str()));
        },
    };
    let opts = parse.load_options(path);
    match parse_csv(bytes.as_slice(), &opts) {
        Ok(parts) => Ok(parts),
        Err(errors) => Err(report_problems(path.text.as_str(), &errors)),
    }
}

/// The line for a clean dataset.
pub open spec fn checked_text(keys: nat, bytes: nat, path: Seq<char>) -> Seq<char> {
    "ok: "@ + decimal(keys) + " keys, "@ + decimal(bytes) + " bytes of data in "@ + path + "\n"@
}

/// How `check` ends.
pub open spec fn check_says(args: DataArgs, data: Result<Vec<u8>, String>) -> Said {
    match refusal(args.data@, data, args.parse) {
        Some(said) => said,
        None => {
            let pairs = read_as_asked(data->Ok_0@, args.parse, args.data@).pairs;
            success(checked_text(pairs.len(), packed(pairs).len(), args.data@.text))
        },
    }
}

/// `check`: validate a dataset. `data` is what reading the file gave.
pub fn cmd_check(args: &DataArgs, data: Result<Vec<u8>, String>) -> (r: Report)
    ensures
        r@ == check_says(*args, data),
        reads_back_as_asked(data, args.parse, args.data@),
{
    let ghost read = read_as_asked(data->Ok_0@, args.parse, args.data@);
    match parse_validated(&args.data, data, &args.parse) {
        Ok((arena, entries)) => {
            proof {
                lemma_layout_len(read.pairs);
            }
            let mut out = String::new();
            out.append("ok: ");
            push_len(&mut out, entries.len());
            out.append(" keys, ");
            push_len(&mut out, arena.len());
            out.append(" bytes of data in ");
            out.append(args.data.text.as_str());
            out.append("\n");
            assert(out@ =~= checked_text(entries@.len(), arena@.len(), args.data@.text));
            Report { code: EXIT_OK, out, err: String::new() }
        },
        Err(report) => report,
    }
}

/// How `serve` ends when its dataset cannot be loaded.
pub open spec fn load_failure_says(path: Seq<char>, why: LoadFailure) -> Said {
    failure(
        if why is Io {
            EXIT_IO
        } else {
            EXIT_INVALID_DATA
        },
        failed_text("load"@, path, why.text()),
    )
}

/// `serve` without a dataset: an I/O error ends as such, and a dataset that is invalid in
/// either format as invalid data.
pub fn report_load_failure(path: &str, why: &LoadFailure) -> (r: Report)
    ensures
        r@ == load_failure_says(path@, *why),
{
    let report = failed("load", path, why.to_string().as_str());
    let code: u8 = match why {
        LoadFailure::Io(_) => EXIT_IO,
        _ => EXIT_INVALID_DATA,
    };
    Report { code, out: report.out, err: report.err }
}

/// The line that a server starts with.
pub fn listening_line(addr: &str, keys: usize, bytes: usize) -> (line: String)
    ensures
        line@ == "justkv listening on "@ + addr@ + " ("@ + decimal(keys as nat) + " keys, "@
            + decimal(bytes as nat) + " bytes)\n"@,
{
    let mut line = String::new();
    line.append("justkv listening on ");
    line.append(addr);
    line.append(" (");
    push_len(&mut line, keys);
    line.append(" keys, ");
    push_len(&mut line, bytes);
    line.append(" bytes)\n");
    assert(line@ =~= "justkv listening on "@ + addr@ + " ("@ + decimal(keys as nat) + " keys, "@
        + decimal(bytes as nat) + " bytes)\n"@);
    line
}

/// `check` exits cleanly exactly where the file was read and has no problems; with
/// invalid data where it has some; and with an I/O error where it was not read.
pub proof fn law_the_exit_code_of_check_tells_what_happened(
    args: DataArgs,
    data: Result<Vec<u8>, String>,
)
    ensures
        data is Err <==> check_says(args, data).code == EXIT_IO,
        data is Ok ==> (check_says(args, data).code == EXIT_OK <==> read_as_asked(
            data->Ok_0@,
            args.parse,
            args.data@,
        ).problems.len() == 0),
        data is Ok ==> (check_says(args, data).code == EXIT_INVALID_DATA <==> read_as_asked(
            data->Ok_0@,
            args.parse,
            args.data@,
        ).problems.len() > 0),
{
}

} // verus!
